//! Places of characters in a text, sections of lines, and the marks that stand for cursors.
use crate::line_number::LineNumber;
use crate::number::{format_decimal, spec_decimal};
use crate::ui::{clamp_index, Index, IndexType, Length, END};
use vstd::prelude::*;

verus! {

/// Indicates a specific Place of a given [`Section`].
#[derive(Copy, Clone, Eq, PartialEq, Ord, PartialOrd, Hash, Debug, Structural)]
pub enum Edge {
    /// Indicates the first Place of the Section.
    Start,
    /// Indicates the last Place of the Section.
    End,
}

impl Default for Edge {
    fn default() -> (e: Edge)
        ensures
            e == Edge::Start,
    {
        Edge::Start
    }
}

impl Edge {
    /// Describes the edge in words.
    pub fn description(&self) -> (s: String)
        ensures
            s@ == (match self {
                Edge::Start => "Starting edge"@,
                Edge::End => "Ending edge"@,
            }),
    {
        match self {
            Edge::Start => String::from_str("Starting edge"),
            Edge::End => String::from_str("Ending edge"),
        }
    }
}

/// The location of a character within a text.
#[derive(Copy, Clone, Eq, PartialEq, Ord, PartialOrd, Hash, Debug, Structural)]
pub struct Place {
    /// The line of the place.
    pub line: LineNumber,
    /// The column of the place within its line.
    pub column: Index,
}

impl Place {
    /// Creates a `Place`.
    pub fn new(line: LineNumber, column: Index) -> (p: Place)
        ensures
            p.line == line,
            p.column == column,
    {
        Place { line, column }
    }

    /// Returns the place `rhs` columns to the right of `self` (to the left if `rhs` is
    /// negative), the column held between 0 and `IndexType::MAX`.
    pub fn shr(self, rhs: IndexType) -> (p: Place)
        ensures
            p.line == self.line,
            p.column@ == clamp_index(self.column@ + rhs),
    {
        let mut new_place = self;
        new_place.shr_assign(rhs);
        new_place
    }

    /// Moves `self` `rhs` columns to the right (to the left if `rhs` is negative), the column
    /// held between 0 and `IndexType::MAX`.
    pub fn shr_assign(&mut self, rhs: IndexType)
        ensures
            final(self).line == old(self).line,
            final(self).column@ == clamp_index(old(self).column@ + rhs),
    {
        self.column = self.column.shifted(rhs);
    }
}

/// Appends the characters of `tail` to `text`.
fn append_chars(text: &mut Vec<char>, tail: &Vec<char>)
    ensures
        final(text)@ == old(text)@ + tail@,
{
    let mut i: usize = 0;
    while i < tail.len()
        invariant
            i <= tail@.len(),
            text@ == old(text)@ + tail@.take(i as int),
        decreases tail@.len() - i,
    {
        text.push(tail[i]);
        i = i + 1;
        assert(text@ =~= old(text)@ + tail@.take(i as int));
    }
    assert(tail@.take(tail@.len() as int) == tail@);
}

/// The text of a place: `ln `, its line, `, idx `, its column.
pub open spec fn place_text(place: Place) -> Seq<char> {
    seq!['l', 'n', ' '] + spec_decimal(place.line@) + seq![',', ' ', 'i', 'd', 'x', ' ']
        + spec_decimal(place.column@ as nat)
}

impl LineNumber {
    /// Writes the line number in decimal.
    pub fn to_text(&self) -> (r: Vec<char>)
        ensures
            r@ == spec_decimal(self@),
    {
        format_decimal(self.value() as u64)
    }
}

impl Place {
    /// Writes the place as `ln <line>, idx <column>`.
    pub fn to_text(&self) -> (r: Vec<char>)
        ensures
            r@ == place_text(*self),
    {
        let mut text: Vec<char> = Vec::new();
        text.push('l');
        text.push('n');
        text.push(' ');
        append_chars(&mut text, &self.line.to_text());
        text.push(',');
        text.push(' ');
        text.push('i');
        text.push('d');
        text.push('x');
        text.push(' ');
        append_chars(&mut text, &format_decimal(self.column.value() as u64));
        assert(text@ =~= place_text(*self));
        text
    }
}

/// Something that covers adjacent places of one line.
pub trait RegionWrapper {
    /// The first place covered.
    spec fn spec_start(&self) -> Place;

    /// How many places are covered.
    spec fn spec_length(&self) -> Length;

    /// Returns the first place covered.
    fn start(&self) -> (p: Place)
        ensures
            p == self.spec_start(),
    ;

    /// Returns how many places are covered.
    fn length(&self) -> (l: Length)
        ensures
            l == self.spec_length(),
    ;
}

impl RegionWrapper for Place {
    open spec fn spec_start(&self) -> Place {
        *self
    }

    open spec fn spec_length(&self) -> Length {
        Length::Count(Index::spec_one())
    }

    fn start(&self) -> (p: Place) {
        *self
    }

    fn length(&self) -> (l: Length) {
        Length::Count(Index::one())
    }
}

/// Adjacent places of one line.
#[derive(Copy, Clone, Eq, PartialEq, Hash, Debug, Structural)]
pub struct Section {
    /// The place at which the section starts.
    pub start: Place,
    /// How many places the section covers.
    pub length: Length,
}

impl Section {
    /// Creates a `Section`.
    pub fn new(start: Place, length: Length) -> (s: Section)
        ensures
            s.start == start,
            s.length == length,
    {
        Section { start, length }
    }

    /// Creates the section that covers the whole line `line`.
    pub fn line(line: LineNumber) -> (s: Section)
        ensures
            s.start.line == line,
            s.start.column@ == 0,
            s.length == END,
    {
        Section { start: Place { line, column: Index::zero() }, length: END }
    }
}

impl RegionWrapper for Section {
    open spec fn spec_start(&self) -> Place {
        self.start
    }

    open spec fn spec_length(&self) -> Length {
        self.length
    }

    fn start(&self) -> (p: Place) {
        self.start
    }

    fn length(&self) -> (l: Length) {
        self.length
    }
}

/// The index of a character within the text of a view, as an offset in the bytes of its
/// UTF-8 form, or none.
#[derive(Copy, Clone, Eq, PartialEq, Hash, Debug, Structural)]
pub struct Pointer(pub Option<Index>);

/// The index `index + shift`, held between 0 and `IndexType::MAX`.
pub open spec fn spec_pointer_add(pointer: Option<Index>, shift: int) -> Option<int> {
    match pointer {
        Some(i) => Some(clamp_index(i@ + shift)),
        None => None,
    }
}

impl Pointer {
    /// Moves the pointer `other` forward (backward if `other` is negative), the index held
    /// between 0 and `IndexType::MAX`; no pointer stays none.
    pub fn add_assign(&mut self, other: IndexType)
        ensures
            match old(self).0 {
                Some(i) => final(self).0 matches Some(j) && j@ == clamp_index(i@ + other),
                None => final(self).0 is None,
            },
    {
        match self.0 {
            Some(i) => {
                self.0 = Some(i.shifted(other));
            },
            None => {},
        }
    }

    /// Whether the pointer points at the index `other`.
    pub fn eq_value(&self, other: IndexType) -> (r: bool)
        ensures
            r == (self.0 matches Some(i) && i@ == other),
    {
        match self.0 {
            Some(i) => i.value() == other,
            None => false,
        }
    }
}

/// The text of a pointer: its index in square brackets, or `[None]`.
pub open spec fn pointer_text(pointer: Pointer) -> Seq<char> {
    match pointer.0 {
        Some(i) => seq!['['] + spec_decimal(i@ as nat) + seq![']'],
        None => seq!['[', 'N', 'o', 'n', 'e', ']'],
    }
}

impl Pointer {
    /// Writes the pointer as its index in square brackets, or `[None]`.
    pub fn to_text(&self) -> (r: Vec<char>)
        ensures
            r@ == pointer_text(*self),
    {
        let mut text: Vec<char> = Vec::new();
        text.push('[');
        match self.0 {
            Some(i) => append_chars(&mut text, &format_decimal(i.value() as u64)),
            None => {
                text.push('N');
                text.push('o');
                text.push('n');
                text.push('e');
            },
        }
        text.push(']');
        assert(text@ =~= pointer_text(*self));
        text
    }
}

impl Default for Pointer {
    fn default() -> (p: Pointer)
        ensures
            p.0 matches Some(i) && i@ == 0,
    {
        Pointer(Some(Index::zero()))
    }
}

/// A cursor: a place and the pointer to its character in the text.
#[derive(Copy, Clone, Eq, PartialEq, Hash, Debug, Structural)]
pub struct Mark {
    /// The pointer to the character of the mark in the text, an offset in its UTF-8 bytes.
    pub pointer: Pointer,
    /// The place of the mark.
    pub place: Place,
}

impl Mark {
    /// Writes the mark as the text of its place followed by that of its pointer.
    pub fn to_text(&self) -> (r: Vec<char>)
        ensures
            r@ == place_text(self.place) + pointer_text(self.pointer),
    {
        let mut text = self.place.to_text();
        append_chars(&mut text, &self.pointer.to_text());
        text
    }
}

} // verus!
