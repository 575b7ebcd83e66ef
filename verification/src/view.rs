//! The text being edited and the part of it that is shown.
use crate::convert::{i32_from_usize, u32_from_usize, IntConversionError};
use crate::line_number::{spec_line_add, LineNumber};
use crate::number::{format_decimal_padded, pad_left, spec_decimal};
use crate::place::{Mark, Place, RegionWrapper};
use crate::text::{lines_view, spec_lines, split_lines};
use crate::utf8::{char_at_byte, char_index_at_byte, prefix_bytes, utf8_len};
use crate::ui::{
    clamp_index, Address, Change, Edit, Index, IndexType, Region, BACKSPACE, END, ENTER,
};
use vstd::prelude::*;
use vstd::view::View as _;

verus! {

/// How many decimal digits are needed to count up to `n`: the least `k` with `10^k >= n`.
pub open spec fn ceil_log10(n: nat) -> nat
    decreases n,
{
    if n <= 1 {
        0
    } else {
        1 + ceil_log10(((n + 9) / 10) as nat)
    }
}

/// The width of the margin in which the numbers of `line_count` lines are shown: the digits
/// of the largest number and a space.
pub open spec fn margin_for(line_count: nat) -> nat {
    ceil_log10(line_count + 1) + 1
}

/// `s` without its carriage returns.
pub open spec fn remove_cr(s: Seq<char>) -> Seq<char>
    decreases s.len(),
{
    if s.len() == 0 {
        Seq::<char>::empty()
    } else if s.last() == '\r' {
        remove_cr(s.drop_last())
    } else {
        remove_cr(s.drop_last()).push(s.last())
    }
}

/// Whether the character `c` can be applied at byte `i` of the UTF-8 form of `data`: a
/// backspace removes the character that starts at that byte, which must exist; any other
/// character is inserted where the byte before it starts a character or the end of the text.
pub open spec fn applies_at(data: Seq<char>, i: int, c: char) -> bool {
    if c == BACKSPACE {
        char_at_byte(data, i) matches Some(k) && k < data.len()
    } else {
        1 <= i && char_at_byte(data, i - 1) is Some
    }
}

/// The text after the character `c` is applied at byte `i` of the UTF-8 form of `data`.
pub open spec fn applied_at(data: Seq<char>, i: int, c: char) -> Seq<char> {
    if c == BACKSPACE {
        data.remove(char_at_byte(data, i)->0 as int)
    } else {
        data.insert(char_at_byte(data, i - 1)->0 as int, c)
    }
}

/// Whether [`View::add`] can apply the character `c` at `pointer` to the text `data`.
pub open spec fn add_in_bounds(data: Seq<char>, pointer: Option<Index>, c: char) -> bool {
    match pointer {
        Some(i) => applies_at(data, i@, c),
        None => true,
    }
}

/// The text after [`View::add`] applied `c` at `pointer`.
pub open spec fn spec_add(data: Seq<char>, pointer: Option<Index>, c: char) -> Seq<char> {
    match pointer {
        Some(i) => applied_at(data, i@, c),
        None => data,
    }
}

/// The length in UTF-8 bytes of line `line` of `data`, if the line exists and its length fits
/// an index.
pub open spec fn spec_line_length(data: Seq<char>, line: nat) -> Option<int> {
    let lines = spec_lines(data);
    if 1 <= line && line - 1 < lines.len() && utf8_len(lines[line - 1]) <= i32::MAX {
        Some(utf8_len(lines[line - 1]) as int)
    } else {
        None
    }
}

/// The indexes of the line feeds of `s`, in order.
pub open spec fn newline_positions(s: Seq<char>) -> Seq<nat>
    decreases s.len(),
{
    if s.len() == 0 {
        Seq::<nat>::empty()
    } else if s.last() == '\n' {
        newline_positions(s.drop_last()).push((s.len() - 1) as nat)
    } else {
        newline_positions(s.drop_last())
    }
}

/// The index in `s` of the first character of row `row`: 0 for row 0, and the index after
/// the `row`-th line feed for the others; none if `s` has fewer line feeds.
pub open spec fn spec_row_start(s: Seq<char>, row: nat) -> Option<nat> {
    let positions = newline_positions(s);
    if row == 0 {
        Some(0)
    } else if row <= positions.len() {
        Some(positions[row - 1] + 1)
    } else {
        None
    }
}

/// The offset in UTF-8 bytes of the first character of row `row` of `s`; none if `s` has
/// fewer line feeds.
pub open spec fn spec_row_offset(s: Seq<char>, row: nat) -> Option<nat> {
    match spec_row_start(s, row) {
        Some(k) => Some(utf8_len(s.take(k as int))),
        None => None,
    }
}

/// The text that row `number` shows: its number aligned to the right in `width` characters,
/// a space, then the line.
pub open spec fn row_text(number: nat, width: nat, line: Seq<char>) -> Seq<char> {
    pad_left(spec_decimal(number), width) + seq![' '] + line
}

/// How many lines [`View::redraw_edits`] shows: those from row `first_row` on, at most
/// `IndexType::MAX + 1` of them.
pub open spec fn shown_rows(line_count: nat, first_row: nat) -> nat {
    if first_row >= line_count {
        0
    } else if line_count - first_row > i32::MAX + 1 {
        (i32::MAX + 1) as nat
    } else {
        (line_count - first_row) as nat
    }
}

/// The first line shown after scrolling from `first_line` by `movement` lines in a text of
/// `line_count` lines: the moved line, but not past the last line (line 1 if there is no line
/// or too many to number).
pub open spec fn scrolled_line(first_line: nat, movement: int, line_count: nat) -> nat {
    let moved = spec_line_add(first_line, movement);
    let last = if 0 < line_count <= u32::MAX {
        line_count
    } else {
        1
    };
    if moved <= last {
        moved
    } else {
        last
    }
}

/// The row and column of the cell that shows `place` when the first line shown is
/// `first_line` and the margin is `margin` wide: the row is the distance of its line from the
/// first line shown, the column is moved right by the margin.  None if the place is above the
/// first line shown, or too far below it, or the margin is too wide.
pub open spec fn spec_address(first_line: nat, margin: nat, place: Place) -> Option<(int, int)> {
    let distance = place.line@ - first_line;
    if 0 <= distance <= i32::MAX && margin <= i32::MAX {
        Some((distance, clamp_index(place.column@ + margin)))
    } else {
        None
    }
}

/// Whether `view` shows a line: its first line shown is one of its lines.
pub open spec fn shows_lines(view: View) -> bool {
    view.first_line@ - 1 < spec_lines(view.data@).len()
}

/// How many edits [`View::redraw_edits`] gives for `view`: a clear and the rows shown.
pub open spec fn redraw_count(view: View) -> nat {
    shown_rows(spec_lines(view.data@).len(), (view.first_line@ - 1) as nat) + 1
}

/// Whether `edit` is edit `k` of those that redraw `view`: edit 0 clears the grid, edit
/// `k + 1` shows the `k`-th line from the first line shown on row `k`.
pub open spec fn is_redraw_edit(view: View, k: int, edit: Edit) -> bool {
    let lines = spec_lines(view.data@);
    let first_row = view.first_line@ - 1;
    if k == 0 {
        &&& edit.region.start.row@ == 0
        &&& edit.region.start.column@ == 0
        &&& edit.region.length == END
        &&& edit.change == Change::Clear
    } else {
        &&& edit.region.start.row@ == k - 1
        &&& edit.region.start.column@ == 0
        &&& edit.region.length == END
        &&& edit.change matches Change::Row(text) && text@ == row_text(
            (first_row + k) as nat,
            (view.margin_width - 1) as nat,
            lines[first_row + k - 1],
        )
    }
}

/// The text of a file and the part of it that is shown.
pub struct View {
    /// The characters of the text.
    pub data: Vec<char>,
    /// The first line that is shown.
    pub first_line: LineNumber,
    /// The width of the margin that holds the line numbers.
    pub margin_width: usize,
    /// How many lines the text had when it was last counted.
    pub line_count: usize,
    /// The path of the file.
    pub path: String,
}

impl View {
    /// An empty view of no file.
    pub fn empty() -> (v: View)
        ensures
            v.data@ == Seq::<char>::empty(),
            v.first_line@ == 1,
            v.margin_width == 0,
            v.line_count == 0,
            v.path@ == Seq::<char>::empty(),
    {
        View {
            data: Vec::new(),
            first_line: LineNumber::first(),
            margin_width: 0,
            line_count: 0,
            path: String::new(),
        }
    }

    /// Creates the view of the text `data` of the file at `path`: its carriage returns are
    /// removed, its lines counted and its margin sized; the first line is shown first.
    pub fn with_data(data: Vec<char>, path: String) -> (r: Result<View, IntConversionError>)
        ensures
            match r {
                Ok(v) => {
                    &&& v.data@ == remove_cr(data@)
                    &&& v.path == path
                    &&& v.first_line@ == 1
                    &&& v.line_count == spec_lines(remove_cr(data@)).len()
                    &&& v.margin_width == margin_for(v.line_count as nat)
                    &&& v.line_count + 1 <= u32::MAX
                },
                Err(e) => e == IntConversionError::Overflow && spec_lines(remove_cr(data@)).len()
                    + 1 > u32::MAX,
            },
    {
        let mut kept: Vec<char> = Vec::new();
        let mut i: usize = 0;
        while i < data.len()
            invariant
                i <= data@.len(),
                kept@ == remove_cr(data@.take(i as int)),
            decreases data@.len() - i,
        {
            assert(data@.take(i + 1).drop_last() == data@.take(i as int));
            if data[i] != '\r' {
                kept.push(data[i]);
            }
            i = i + 1;
        }
        assert(data@.take(data@.len() as int) == data@);
        let mut view = View {
            data: kept,
            first_line: LineNumber::first(),
            margin_width: 0,
            line_count: 0,
            path,
        };
        match view.clean() {
            Ok(()) => Ok(view),
            Err(e) => Err(e),
        }
    }

    /// Applies the character `c` at the pointer of `mark`, an offset in the UTF-8 form of the
    /// text: a backspace removes the character that starts at the pointer, any other
    /// character is inserted at the byte before it; nothing changes when the mark has no
    /// pointer.
    pub fn add(&mut self, mark: &Mark, c: char) -> (r: Result<(), IntConversionError>)
        requires
            add_in_bounds(old(self).data@, mark.pointer.0, c),
        ensures
            r is Ok,
            final(self).data@ == spec_add(old(self).data@, mark.pointer.0, c),
            final(self).first_line == old(self).first_line,
            final(self).margin_width == old(self).margin_width,
            final(self).line_count == old(self).line_count,
            final(self).path == old(self).path,
    {
        if let Some(index) = mark.pointer.0 {
            let data_index = match index.to_usize() {
                Ok(v) => v,
                Err(e) => return Err(e),
            };
            if c == BACKSPACE {
                if let Some(k) = char_index_at_byte(&self.data, data_index) {
                    let _removed = self.data.remove(k);
                }
            } else {
                if let Some(k) = char_index_at_byte(&self.data, data_index - 1) {
                    proof {
                        crate::utf8::lemma_char_at_byte_found(self.data@, data_index - 1);
                    }
                    self.data.insert(k, c);
                }
            }
        }
        Ok(())
    }

    /// Returns the address in the grid at which `place` is shown: its row is its distance
    /// from the first line shown, its column is moved right by the margin.  None if the place
    /// is above the first line shown, or too far below it, or the margin is too wide.
    pub fn address_at(&self, place: Place) -> (r: Option<Address>)
        ensures
            match r {
                Some(a) => spec_address(self.first_line@, self.margin_width as nat, place) == Some(
                    (a.row@, a.column@),
                ),
                None => spec_address(self.first_line@, self.margin_width as nat, place) is None,
            },
    {
        match Index::try_from_i64(place.line.sub(self.first_line)) {
            Ok(row) => match i32_from_usize(self.margin_width) {
                Ok(origin) => Some(Address::new(row, place.column.shifted(origin))),
                Err(_) => None,
            },
            Err(_) => None,
        }
    }

    /// Returns the region of the grid that shows `region_wrapper`, if its start is shown.
    pub fn region_at<T: RegionWrapper>(&self, region_wrapper: &T) -> (r: Option<Region>)
        ensures
            ({
                let place = region_wrapper.spec_start();
                let distance = place.line@ - self.first_line@;
                match r {
                    Some(region) => 0 <= distance <= i32::MAX && self.margin_width <= i32::MAX
                        && region.start.row@ == distance && region.start.column@ == clamp_index(
                        place.column@ + self.margin_width,
                    ) && region.length == region_wrapper.spec_length(),
                    None => distance < 0 || distance > i32::MAX || self.margin_width > i32::MAX,
                }
            }),
    {
        match self.address_at(region_wrapper.start()) {
            Some(address) => Some(Region::new(address, region_wrapper.length())),
            None => None,
        }
    }

    /// Returns the edits that redraw the grid: a clear, then one row for each line from the
    /// first line shown on, with its number in the margin.
    pub fn redraw_edits(&self) -> (r: Vec<Edit>)
        requires
            self.first_line@ >= 1,
            shows_lines(*self) ==> self.margin_width >= 1,
        ensures
            r@.len() == redraw_count(*self),
            !shows_lines(*self) ==> r@.len() == 1,
            forall|k: int| 0 <= k < r@.len() ==> is_redraw_edit(*self, k, #[trigger] r@[k]),
    {
        let lines = split_lines(&self.data);
        let first_row = self.first_line.row();
        let mut edits: Vec<Edit> = Vec::new();
        edits.push(Edit::new(Region::origin(), Change::Clear));
        let ghost lv = lines_view(lines@);
        let ghost shown = shown_rows(lv.len(), first_row as nat);
        if first_row >= lines.len() {
            return edits;
        }
        let width = self.margin_width - 1;
        let mut row: usize = 0;
        while row < lines.len() - first_row && row <= i32::MAX as usize
            invariant
                lv == lines_view(lines@),
                lv == spec_lines(self.data@),
                first_row < lines@.len(),
                first_row == self.first_line@ - 1,
                width == self.margin_width - 1,
                shown == shown_rows(lv.len(), first_row as nat),
                row <= shown,
                edits@.len() == row + 1,
                edits@[0].region.start.row@ == 0,
                edits@[0].region.start.column@ == 0,
                edits@[0].region.length == END,
                edits@[0].change == Change::Clear,
                forall|k: int|
                    0 <= k < row ==> {
                        &&& (#[trigger] edits@[k + 1]).region.start.row@ == k
                        &&& edits@[k + 1].region.start.column@ == 0
                        &&& edits@[k + 1].region.length == END
                        &&& edits@[k + 1].change matches Change::Row(text) && text@ == row_text(
                            (first_row + k + 1) as nat,
                            width as nat,
                            lv[first_row + k],
                        )
                    },
            decreases lines@.len() - first_row - row,
        {
            let region = match Region::row(row) {
                Ok(region) => region,
                Err(_) => {
                    proof {
                        assert(false);
                    }
                    return edits;
                },
            };
            let j = first_row + row;
            let mut text = format_decimal_padded((j + 1) as u64, width);
            text.push(' ');
            let mut line = lines[j].clone();
            assert(line@ == lv[j as int]);
            text.append(&mut line);
            let ghost old_edits = edits@;
            edits.push(Edit::new(region, Change::Row(text)));
            assert forall|k: int| 0 <= k < row + 1 implies {
                &&& (#[trigger] edits@[k + 1]).region.start.row@ == k
                &&& edits@[k + 1].region.start.column@ == 0
                &&& edits@[k + 1].region.length == END
                &&& edits@[k + 1].change matches Change::Row(text) && text@ == row_text(
                    (first_row + k + 1) as nat,
                    width as nat,
                    lv[first_row + k],
                )
            } by {
                if k < row {
                    assert(edits@[k + 1] == old_edits[k + 1]);
                }
            }
            row = row + 1;
        }
        assert forall|k: int| 0 <= k < edits@.len() implies is_redraw_edit(*self, k, #[trigger] edits@[k]) by {
            if k > 0 {
                assert(edits@[(k - 1) + 1] == edits@[k]);
            }
        }
        edits
    }

    /// Returns the lines of the text, as `str::lines` splits them.
    pub fn lines(&self) -> (r: Vec<Vec<char>>)
        ensures
            lines_view(r@) == spec_lines(self.data@),
    {
        split_lines(&self.data)
    }

    /// Returns line `line_number` of the text, if it has one.
    pub fn line(&self, line_number: LineNumber) -> (r: Option<Vec<char>>)
        requires
            line_number@ >= 1,
        ensures
            ({
                let lines = spec_lines(self.data@);
                match r {
                    Some(l) => line_number@ - 1 < lines.len() && l@ == lines[line_number@ - 1],
                    None => line_number@ - 1 >= lines.len(),
                }
            }),
    {
        let mut lines = self.lines();
        let row = line_number.row();
        if row < lines.len() {
            let ghost lv = lines_view(lines@);
            let l = lines.remove(row);
            assert(l@ == lv[row as int]);
            Some(l)
        } else {
            None
        }
    }

    /// Counts the lines of the text and sizes the margin for them.
    pub fn clean(&mut self) -> (r: Result<(), IntConversionError>)
        ensures
            final(self).data == old(self).data,
            final(self).first_line == old(self).first_line,
            final(self).path == old(self).path,
            final(self).line_count == spec_lines(old(self).data@).len(),
            match r {
                Ok(()) => final(self).margin_width == margin_for(final(self).line_count as nat)
                    && final(self).line_count + 1 <= u32::MAX,
                Err(e) => e == IntConversionError::Overflow && final(self).line_count + 1
                    > u32::MAX && final(self).margin_width == old(self).margin_width,
            },
    {
        let count = self.lines().len();
        proof {
            crate::text::lemma_lines_len(self.data@);
        }
        self.line_count = count;
        if count == usize::MAX {
            return Err(IntConversionError::Overflow);
        }
        self.update_margin_width()
    }

    /// Sizes the margin for the number of lines last counted.
    pub fn update_margin_width(&mut self) -> (r: Result<(), IntConversionError>)
        requires
            old(self).line_count < usize::MAX,
        ensures
            final(self).data == old(self).data,
            final(self).first_line == old(self).first_line,
            final(self).path == old(self).path,
            final(self).line_count == old(self).line_count,
            match r {
                Ok(()) => final(self).margin_width == margin_for(old(self).line_count as nat)
                    && old(self).line_count + 1 <= u32::MAX,
                Err(e) => e == IntConversionError::Overflow && old(self).line_count + 1 > u32::MAX
                    && final(self).margin_width == old(self).margin_width,
            },
    {
        match u32_from_usize(self.line_count + 1) {
            Ok(n) => {
                self.margin_width = (ceil_log10_exec(n) + 1) as usize;
                Ok(())
            },
            Err(e) => Err(e),
        }
    }

    /// Moves the first line shown by `movement` lines, never past the last line.
    pub fn scroll(&mut self, movement: IndexType)
        ensures
            final(self).first_line@ == scrolled_line(
                old(self).first_line@,
                movement as int,
                old(self).line_count as nat,
            ),
            final(self).data == old(self).data,
            final(self).margin_width == old(self).margin_width,
            final(self).line_count == old(self).line_count,
            final(self).path == old(self).path,
    {
        let last = match LineNumber::new(self.line_count) {
            Some(line) => line,
            None => LineNumber::first(),
        };
        self.first_line = self.first_line.add(movement).earlier(last);
    }

    /// Returns the length in UTF-8 bytes of the line of `place`, if the line exists and its
    /// length fits an index.
    pub fn line_length(&self, place: Place) -> (r: Option<Index>)
        requires
            place.line@ >= 1,
        ensures
            match spec_line_length(self.data@, place.line@) {
                Some(n) => r matches Some(i) && i@ == n,
                None => r is None,
            },
    {
        match self.line(place.line) {
            Some(l) => {
                assert(l@.take(l@.len() as int) =~= l@);
                match prefix_bytes(&l, l.len()) {
                    Some(n) => match Index::try_from_usize(n) {
                        Ok(i) => Some(i),
                        Err(_) => None,
                    },
                    None => None,
                }
            },
            None => None,
        }
    }

    /// Returns the offset in UTF-8 bytes of the first character of row `row`, if the row exists
    /// and the offset is at most `IndexType::MAX`.
    pub fn row_start(&self, row: usize) -> (r: Option<usize>)
        ensures
            match spec_row_offset(self.data@, row as nat) {
                Some(n) => if n <= i32::MAX {
                    r == Some(n as usize)
                } else {
                    r is None
                },
                None => r is None,
            },
    {
        match self.row_char(row) {
            Some(k) => {
                assert(spec_row_start(self.data@, row as nat) == Some(k as nat)) by {
                    match spec_row_start(self.data@, row as nat) {
                        Some(n) => {
                            assert(n <= self.data@.len());
                            assert(self.data@.len() == self.data.len());
                            assert(n as usize == n);
                        },
                        None => {},
                    }
                }
                let r = prefix_bytes(&self.data, k);
                assert(spec_row_offset(self.data@, row as nat) == Some(utf8_len(self.data@.take(k as int))));
                r
            },
            None => None,
        }
    }

    /// Returns the index in the text of the first character of row `row`: 0 for row 0, the
    /// index after the `row`-th line feed for the others.
    fn row_char(&self, row: usize) -> (r: Option<usize>)
        ensures
            spec_row_start(self.data@, row as nat) matches Some(n) ==> n <= self.data@.len(),
            match spec_row_start(self.data@, row as nat) {
                Some(n) => r == Some(n as usize),
                None => r is None,
            },
    {
        proof {
            lemma_newline_positions_bound(self.data@);
        }
        if row == 0 {
            return Some(0);
        }
        let mut seen: usize = 0;
        let mut i: usize = 0;
        while i < self.data.len()
            invariant
                i <= self.data@.len(),
                row > 0,
                seen == newline_positions(self.data@.take(i as int)).len(),
                seen < row,
                forall|k: int|
                    0 <= k < seen ==> #[trigger] newline_positions(self.data@.take(i as int))[k]
                        < i,
            decreases self.data@.len() - i,
        {
            assert(self.data@.take(i + 1).drop_last() == self.data@.take(i as int));
            if self.data[i] == ENTER {
                seen = seen + 1;
                if seen == row {
                    proof {
                        lemma_newline_positions_prefix(self.data@, i + 1);
                        assert(newline_positions(self.data@.take(i + 1)) == newline_positions(
                            self.data@.take(i as int),
                        ).push(i as nat));
                        let p = newline_positions(self.data@.take(i + 1));
                        let all = newline_positions(self.data@);
                        assert(p.len() == row);
                        assert(p[row - 1] == i);
                        assert(all.take(p.len() as int) == p);
                        assert(all.take(p.len() as int)[row - 1] == all[row - 1]);
                    }
                    return Some(i + 1);
                }
            }
            i = i + 1;
        }
        assert(self.data@.take(self.data@.len() as int) == self.data@);
        None
    }
}

/// Every line feed is inside the text.
proof fn lemma_newline_positions_bound(s: Seq<char>)
    ensures
        forall|k: int| 0 <= k < newline_positions(s).len() ==> #[trigger] newline_positions(s)[k] < s.len(),
    decreases s.len(),
{
    if s.len() > 0 {
        lemma_newline_positions_bound(s.drop_last());
        let p = newline_positions(s.drop_last());
        assert forall|k: int| 0 <= k < newline_positions(s).len() implies #[trigger] newline_positions(s)[k] < s.len() by {
            if k < p.len() {
                assert(newline_positions(s)[k] == p[k]);
            }
        }
    }
}

/// The line feeds of a prefix come first among the line feeds of the whole text.
proof fn lemma_newline_positions_prefix(s: Seq<char>, n: int)
    requires
        0 <= n <= s.len(),
    ensures
        newline_positions(s.take(n)).len() <= newline_positions(s).len(),
        newline_positions(s.take(n)) == newline_positions(s).take(
            newline_positions(s.take(n)).len() as int,
        ),
    decreases s.len() - n,
{
    if n == s.len() {
        assert(s.take(n) == s);
        assert(newline_positions(s).take(newline_positions(s).len() as int) == newline_positions(s));
    } else {
        lemma_newline_positions_prefix(s, n + 1);
        assert(s.take(n + 1).drop_last() == s.take(n));
        let a = newline_positions(s.take(n));
        let b = newline_positions(s.take(n + 1));
        assert(b.take(a.len() as int) == a);
    }
}

/// Ten to the power `k`.
pub open spec fn pow10(k: nat) -> nat
    decreases k,
{
    if k == 0 {
        1
    } else {
        10 * pow10((k - 1) as nat)
    }
}

/// A number at most `10^k` needs at most `k` digits.
pub proof fn lemma_ceil_log10_bound(n: nat, k: nat)
    requires
        n <= pow10(k),
    ensures
        ceil_log10(n) <= k,
    decreases k,
{
    if n > 1 {
        if k == 0 {
            assert(false);
        } else {
            assert((n + 9) / 10 <= pow10((k - 1) as nat));
            lemma_ceil_log10_bound(((n + 9) / 10) as nat, (k - 1) as nat);
        }
    }
}

/// Computes [`ceil_log10`].
fn ceil_log10_exec(n: u32) -> (k: u32)
    ensures
        k == ceil_log10(n as nat),
        k <= 10,
{
    proof {
        assert(pow10(10) == 10_000_000_000) by {
            reveal_with_fuel(pow10, 11);
        }
        lemma_ceil_log10_bound(n as nat, 10);
    }
    let mut m: u32 = n;
    let mut k: u32 = 0;
    while m > 1
        invariant
            k + ceil_log10(m as nat) == ceil_log10(n as nat),
            k <= 10,
            k + ceil_log10(m as nat) <= 10,
        decreases m,
    {
        m = ((m as u64 + 9) / 10) as u32;
        k = k + 1;
    }
    k
}

} // verus!
