//! The grid of characters that a user interface shows: indexes, lengths, regions and the
//! edits that change what is shown.
use crate::convert::{i32_from_i64, i32_from_usize, usize_from_i32, IntConversionError};
use vstd::prelude::*;

verus! {

/// The character that a user interface reports for the `Backspace` key.
pub const BACKSPACE: char = '\u{8}';

/// The character that a user interface reports for the `Enter` key; it also ends a line.
pub const ENTER: char = '\n';

/// The character that a user interface reports for the `Escape` key.
pub const ESC: char = '\u{1b}';

/// The type of the value of an [`Index`], and of the shifts applied to one.
pub type IndexType = i32;

/// The index of a row or a column: a value from 0 to `IndexType::MAX`.
#[derive(Clone, Copy, Debug, PartialEq, Eq, Hash, PartialOrd, Ord, Structural)]
pub struct Index {
    value: IndexType,
}

impl View for Index {
    type V = int;

    closed spec fn view(&self) -> int {
        self.value as int
    }
}

/// The value that `base + shift` takes when it is held between 0 and `IndexType::MAX`.
pub open spec fn clamp_index(value: int) -> int {
    if value < 0 {
        0
    } else if value > i32::MAX {
        i32::MAX as int
    } else {
        value
    }
}

impl Index {
    #[verifier::type_invariant]
    closed spec fn non_negative(self) -> bool {
        self.value >= 0
    }

    /// The index 0.
    pub fn zero() -> (i: Index)
        ensures
            i@ == 0,
    {
        Index { value: 0 }
    }

    /// The value that [`Index::one`] has.
    pub closed spec fn spec_one() -> Index {
        Index { value: 1 }
    }

    /// The index 1.
    pub fn one() -> (i: Index)
        ensures
            i == Index::spec_one(),
            i@ == 1,
    {
        Index { value: 1 }
    }

    /// Creates an `Index` from a small value.
    pub fn from_u8(value: u8) -> (i: Index)
        ensures
            i@ == value,
    {
        Index { value: value as IndexType }
    }

    /// Returns the value of `self`.
    pub fn value(&self) -> (v: IndexType)
        ensures
            v == self@,
            0 <= v,
    {
        proof {
            use_type_invariant(self);
        }
        self.value
    }

    /// Converts a signed value; fails on negative values and on values above
    /// `IndexType::MAX`.
    pub fn try_from_i64(value: i64) -> (r: Result<Index, IntConversionError>)
        ensures
            match r {
                Ok(i) => 0 <= value <= i32::MAX && i@ == value,
                Err(e) => (value < 0 && e == IntConversionError::Underflow) || (value > i32::MAX
                    && e == IntConversionError::Overflow),
            },
    {
        match i32_from_i64(value) {
            Ok(v) => {
                if v < 0 {
                    Err(IntConversionError::Underflow)
                } else {
                    Ok(Index { value: v })
                }
            },
            Err(e) => Err(e),
        }
    }

    /// Converts an unsigned value; fails with `Overflow` on values above `IndexType::MAX`.
    pub fn try_from_usize(value: usize) -> (r: Result<Index, IntConversionError>)
        ensures
            match r {
                Ok(i) => value <= i32::MAX && i@ == value,
                Err(e) => value > i32::MAX && e == IntConversionError::Overflow,
            },
    {
        match i32_from_usize(value) {
            Ok(v) => Ok(Index { value: v }),
            Err(e) => Err(e),
        }
    }

    /// Converts a [`Length`]: a count converts to its index, [`END`] fails with `Overflow`.
    pub fn try_from_length(length: Length) -> (r: Result<Index, IntConversionError>)
        ensures
            match length {
                Length::Count(i) => r == Ok::<Index, IntConversionError>(i),
                Length::End => r == Err::<Index, IntConversionError>(IntConversionError::Overflow),
            },
    {
        match length {
            Length::Count(i) => Ok(i),
            Length::End => Err(IntConversionError::Overflow),
        }
    }

    /// Converts `self` to a `usize`; this never fails, since an index is never negative.
    pub fn to_usize(self) -> (r: Result<usize, IntConversionError>)
        ensures
            r matches Ok(v) && v == self@,
    {
        proof {
            use_type_invariant(&self);
        }
        usize_from_i32(self.value)
    }

    /// Returns `self` moved by `shift`, held between 0 and `IndexType::MAX`.
    pub fn shifted(self, shift: IndexType) -> (i: Index)
        ensures
            i@ == clamp_index(self@ + shift),
    {
        proof {
            use_type_invariant(&self);
        }
        let sum: i64 = self.value as i64 + shift as i64;
        if sum < 0 {
            Index { value: 0 }
        } else if sum > i32::MAX as i64 {
            Index { value: i32::MAX }
        } else {
            Index { value: sum as i32 }
        }
    }

    /// Returns `self` moved forward by `other`, held at most `IndexType::MAX`.
    pub fn plus(self, other: Index) -> (i: Index)
        ensures
            i@ == clamp_index(self@ + other@),
    {
        self.shifted(other.value())
    }

    /// Returns the negated value of `self`.
    pub fn negated(self) -> (v: IndexType)
        ensures
            v == -self@,
    {
        proof {
            use_type_invariant(&self);
        }
        -self.value
    }
}

/// A number of characters, or the rest of a row.
#[derive(Clone, Copy, Debug, PartialEq, Eq, Hash, Structural)]
pub enum Length {
    /// A given number of characters.
    Count(Index),
    /// Every character up to the end of the row.
    End,
}

/// The [`Length`] that reaches the end of a row.
pub const END: Length = Length::End;

impl Length {
    /// Creates a `Length` from a small count.
    pub fn from_u8(value: u8) -> (l: Length)
        ensures
            l matches Length::Count(i) && i@ == value,
    {
        Length::Count(Index::from_u8(value))
    }

    /// Converts a count; fails with `Overflow` on values above `IndexType::MAX`.
    pub fn try_from_usize(value: usize) -> (r: Result<Length, IntConversionError>)
        ensures
            match r {
                Ok(l) => value <= i32::MAX && (l matches Length::Count(i) && i@ == value),
                Err(e) => value > i32::MAX && e == IntConversionError::Overflow,
            },
    {
        match Index::try_from_usize(value) {
            Ok(i) => Ok(Length::Count(i)),
            Err(e) => Err(e),
        }
    }
}

/// The place of a cell of the grid.
#[derive(Clone, Copy, Debug, PartialEq, Eq, Hash, Structural)]
pub struct Address {
    /// The row of the cell.
    pub row: Index,
    /// The column of the cell.
    pub column: Index,
}

impl Address {
    /// Creates an `Address`.
    pub fn new(row: Index, column: Index) -> (a: Address)
        ensures
            a.row == row,
            a.column == column,
    {
        Address { row, column }
    }
}

/// Adjacent cells of one row of the grid.
#[derive(Clone, Copy, Debug, PartialEq, Eq, Hash, Structural)]
pub struct Region {
    /// The first cell.
    pub start: Address,
    /// How many cells.
    pub length: Length,
}

impl Region {
    /// Creates a `Region`.
    pub fn new(start: Address, length: Length) -> (r: Region)
        ensures
            r.start == start,
            r.length == length,
    {
        Region { start, length }
    }

    /// The region of the whole row `row`; fails with `Overflow` when `row` is above
    /// `IndexType::MAX`.
    pub fn row(row: usize) -> (r: Result<Region, IntConversionError>)
        ensures
            match r {
                Ok(region) => row <= i32::MAX && region.start.row@ == row && region.start.column@
                    == 0 && region.length == END,
                Err(e) => row > i32::MAX && e == IntConversionError::Overflow,
            },
    {
        match Index::try_from_usize(row) {
            Ok(i) => Ok(Region { start: Address { row: i, column: Index::zero() }, length: END }),
            Err(e) => Err(e),
        }
    }

    /// The region that starts at the first cell of the grid and reaches the end of its row.
    pub fn origin() -> (r: Region)
        ensures
            r.start.row@ == 0,
            r.start.column@ == 0,
            r.length == END,
    {
        Region { start: Address { row: Index::zero(), column: Index::zero() }, length: END }
    }
}

/// The colors in which a region can be drawn.
#[derive(Clone, Copy, Debug, PartialEq, Eq, Hash, Structural)]
pub enum Color {
    /// The color of the terminal.
    Default,
    /// Red.
    Red,
    /// Blue.
    Blue,
}

/// A change of what the grid shows.
#[derive(Clone, Debug, PartialEq, Eq)]
pub enum Change {
    /// Nothing changes.
    Nothing,
    /// The whole grid is cleared.
    Clear,
    /// The text of a row is replaced.
    Row(Vec<char>),
    /// A region is drawn in a color.
    Format(Color),
    /// The character before a cell is removed.
    Backspace,
    /// A character is inserted at a cell.
    Insert(char),
}

/// A [`Change`] at a [`Region`].
#[derive(Clone, Debug, PartialEq, Eq)]
pub struct Edit {
    /// Where the change happens.
    pub region: Region,
    /// What changes.
    pub change: Change,
}

impl Change {
    /// Returns a copy of `self`.
    pub fn duplicate(&self) -> (r: Change)
        ensures
            match *self {
                Change::Row(text) => r matches Change::Row(copy) && copy@ == text@,
                _ => r == *self,
            },
    {
        match self {
            Change::Nothing => Change::Nothing,
            Change::Clear => Change::Clear,
            Change::Row(text) => Change::Row(text.clone()),
            Change::Format(color) => Change::Format(*color),
            Change::Backspace => Change::Backspace,
            Change::Insert(c) => Change::Insert(*c),
        }
    }
}

impl Edit {
    /// Returns a copy of `self`.
    pub fn clone_edit(&self) -> (r: Edit)
        ensures
            r.region == self.region,
            match self.change {
                Change::Row(text) => r.change matches Change::Row(copy) && copy@ == text@,
                _ => r.change == self.change,
            },
    {
        Edit { region: self.region, change: self.change.duplicate() }
    }

    /// Creates an `Edit`.
    pub fn new(region: Region, change: Change) -> (e: Edit)
        ensures
            e.region == region,
            e.change == change,
    {
        Edit { region, change }
    }
}

} // verus!
