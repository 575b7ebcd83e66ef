//! The state of the editor: the view, the sections that filters select, the marks, and the
//! mode; and the edits of the grid that each operation asks for.
use crate::convert::IntConversionError;
use crate::filter::{line_filtered, pattern_extracted, LineFilter, PatternFilter};
use crate::line_number::LineNumber;
use crate::place::{Edge, Mark, Pointer, Section};
use crate::text::spec_lines;
use crate::ui::{clamp_index, Change, Color, Edit, Index, Length, Region};
use crate::view::{
    is_redraw_edit, margin_for, redraw_count, remove_cr, scrolled_line, shows_lines,
    spec_line_length, spec_row_offset, View,
};
use vstd::prelude::*;
use vstd::view::View as _;

verus! {

/// How the editor reads the keys that are pressed.
#[derive(Copy, Clone, Debug, PartialEq, Eq, Hash, Structural)]
pub enum Mode {
    /// Keys move the view.
    Display,
    /// Keys write a command.
    Command,
    /// Keys write a filter feature.
    Filter,
    /// Keys choose an action on the marks.
    Action,
    /// Keys edit the text at the marks.
    Edit,
}

/// Whether every section of `sections` is on a line 1 or higher.
pub open spec fn on_lines(sections: Seq<Section>) -> bool {
    forall|i: int| 0 <= i < sections.len() ==> #[trigger] sections[i].start.line@ >= 1
}

/// The sections of the whole lines 1 to `count`.
pub open spec fn is_line_sections(sections: Seq<Section>, count: nat) -> bool {
    &&& sections.len() == count
    &&& forall|i: int|
        0 <= i < count ==> {
            &&& (#[trigger] sections[i]).start.line@ == i + 1
            &&& sections[i].start.column@ == 0
            &&& sections[i].length == Length::End
        }
}

/// The column of the mark that [`Paper::set_marks`] places for `signal`: its first place, or
/// for the end edge its last place (for a section that reaches the end of the line, the
/// length of the line in UTF-8 bytes less one, the line counted as empty if it does not
/// exist).
pub open spec fn mark_column(signal: Section, edge: Edge, data: Seq<char>) -> int {
    if edge == Edge::End {
        match signal.length {
            Length::Count(i) => clamp_index(signal.start.column@ + i@ - 1),
            Length::End => clamp_index(
                match spec_line_length(data, signal.start.line@) {
                    Some(n) => n,
                    None => 0,
                } - 1,
            ),
        }
    } else {
        signal.start.column@
    }
}

/// The pointer of a mark at `column` of line `line`: the offset in UTF-8 bytes of the start
/// of the row of the line, moved by the column; none if the line does not exist or the
/// offset of its start is no index.
pub open spec fn mark_pointer(line: nat, column: int, data: Seq<char>) -> Option<int> {
    match spec_row_offset(data, (line - 1) as nat) {
        Some(n) => if n <= i32::MAX {
            Some(clamp_index(n + column))
        } else {
            None
        },
        None => None,
    }
}

/// The value of a pointer.
pub open spec fn pointer_model(pointer: Pointer) -> Option<int> {
    match pointer.0 {
        Some(i) => Some(i@),
        None => None,
    }
}

/// Whether `mark` is the mark that [`Paper::set_marks`] places for `signal`.
pub open spec fn is_mark_for(mark: Mark, signal: Section, edge: Edge, data: Seq<char>) -> bool {
    let column = mark_column(signal, edge, data);
    &&& mark.place.line == signal.start.line
    &&& mark.place.column@ == column
    &&& pointer_model(mark.pointer) == mark_pointer(signal.start.line@, column, data)
}

/// The edit that draws `section` in `color` on `view`, as its row, column, length and color;
/// none if the start of the section is not shown.
pub open spec fn section_edit(view: View, section: Section, color: Color) -> Option<(int, int, Length, Color)> {
    let distance = section.start.line@ - view.first_line@;
    if 0 <= distance <= i32::MAX && view.margin_width <= i32::MAX {
        Some((distance, clamp_index(section.start.column@ + view.margin_width), section.length, color))
    } else {
        None
    }
}

/// The edits that draw each of `sections` whose start is shown, in order.
pub open spec fn section_edits(view: View, sections: Seq<Section>, color: Color) -> Seq<(int, int, Length, Color)>
    decreases sections.len(),
{
    if sections.len() == 0 {
        Seq::empty()
    } else {
        section_edits(view, sections.drop_last(), color) + match section_edit(view, sections.last(), color) {
            Some(e) => seq![e],
            None => Seq::empty(),
        }
    }
}

/// Whether `edit` draws the region and color that `e` gives.
pub open spec fn is_section_edit(edit: Edit, e: (int, int, Length, Color)) -> bool {
    &&& edit.region.start.row@ == e.0
    &&& edit.region.start.column@ == e.1
    &&& edit.region.length == e.2
    &&& edit.change == Change::Format(e.3)
}

/// The state of the editor.
pub struct Paper {
    /// The text being edited and the part of it that is shown.
    pub view: View,
    /// The characters of the command or feature being written.
    pub sketch: Vec<char>,
    /// The sections that the last filter selected.
    pub signals: Vec<Section>,
    /// The sections that filters select from.
    pub noises: Vec<Section>,
    /// The cursors.
    pub marks: Vec<Mark>,
    /// How keys are read.
    pub mode: Mode,
}

impl Paper {
    /// Creates the editor with an empty view of no file, in display mode.
    pub fn new() -> (p: Paper)
        ensures
            p.view.data@ == Seq::<char>::empty(),
            p.view.first_line@ == 1,
            p.view.margin_width == 0,
            p.view.line_count == 0,
            p.view.path@ == Seq::<char>::empty(),
            p.sketch@ == Seq::<char>::empty(),
            p.signals@ == Seq::<Section>::empty(),
            p.noises@ == Seq::<Section>::empty(),
            p.marks@ == Seq::<Mark>::empty(),
            p.mode == Mode::Display,
    {
        Paper {
            view: View::empty(),
            sketch: Vec::new(),
            signals: Vec::new(),
            noises: Vec::new(),
            marks: Vec::new(),
            mode: Mode::Display,
        }
    }

    /// Returns the edits that show the view on a grid of `height` rows: the first `height`
    /// of the edits that redraw it.  A view that shows no line gives the clear alone.
    pub fn display_view(&self, height: usize) -> (r: Vec<Edit>)
        requires
            self.view.first_line@ >= 1,
            height >= 2 && shows_lines(self.view) ==> self.view.margin_width >= 1,
        ensures
            r@.len() == if height < redraw_count(self.view) {
                height as nat
            } else {
                redraw_count(self.view)
            },
            forall|k: int| 0 <= k < r@.len() ==> is_redraw_edit(self.view, k, #[trigger] r@[k]),
            !shows_lines(self.view) ==> r@.len() == if height == 0 {
                0nat
            } else {
                1nat
            },
    {
        let mut r: Vec<Edit> = Vec::new();
        if height < 2 {
            if height == 1 {
                r.push(Edit::new(Region::origin(), Change::Clear));
            }
            return r;
        }
        let all = self.view.redraw_edits();
        let mut i: usize = 0;
        while i < all.len() && i < height
            invariant
                i <= all@.len(),
                i <= height,
                all@.len() == redraw_count(self.view),
                forall|k: int| 0 <= k < all@.len() ==> is_redraw_edit(self.view, k, #[trigger] all@[k]),
                r@.len() == i,
                forall|k: int| 0 <= k < i ==> is_redraw_edit(self.view, k, #[trigger] r@[k]),
            decreases all@.len() - i,
        {
            let edit = all[i].clone_edit();
            assert(is_redraw_edit(self.view, i as int, all@[i as int]));
            r.push(edit);
            i = i + 1;
        }
        r
    }

    /// Opens the text `data` of the file at `path`: the view shows it from its first line, and
    /// the noises become its whole lines.  Nothing changes when its lines are too many to
    /// number.
    pub fn change_view(&mut self, data: Vec<char>, path: String) -> (r: Result<(), IntConversionError>)
        ensures
            match r {
                Ok(()) => {
                    &&& final(self).view.data@ == remove_cr(data@)
                    &&& final(self).view.path == path
                    &&& final(self).view.first_line@ == 1
                    &&& final(self).view.line_count == spec_lines(remove_cr(data@)).len()
                    &&& final(self).view.line_count + 1 <= u32::MAX
                    &&& final(self).view.margin_width == margin_for(final(self).view.line_count as nat)
                    &&& is_line_sections(final(self).noises@, final(self).view.line_count as nat)
                },
                Err(e) => e == IntConversionError::Overflow && spec_lines(remove_cr(data@)).len() + 1
                    > u32::MAX && final(self).view == old(self).view && final(self).noises == old(self).noises,
            },
            final(self).signals == old(self).signals,
            final(self).marks == old(self).marks,
            final(self).sketch == old(self).sketch,
            final(self).mode == old(self).mode,
    {
        self.view = match View::with_data(data, path) {
            Ok(v) => v,
            Err(e) => return Err(e),
        };
        self.noises.clear();
        let count = self.view.line_count;
        let ghost opened = self.view;
        let mut line: usize = 1;
        while line <= count
            invariant
                1 <= line <= count + 1,
                count == self.view.line_count,
                count + 1 <= u32::MAX,
                self.view == opened,
                self.signals == old(self).signals,
                self.marks == old(self).marks,
                self.sketch == old(self).sketch,
                self.mode == old(self).mode,
                is_line_sections(self.noises@, (line - 1) as nat),
            decreases count + 1 - line,
        {
            if let Some(number) = LineNumber::new(line) {
                self.noises.push(Section::line(number));
            }
            line = line + 1;
        }
        Ok(())
    }

    /// Makes the signals the sections that filters select from.
    pub fn reduce_noise(&mut self)
        ensures
            final(self).noises@ == old(self).signals@,
            final(self).signals == old(self).signals,
            final(self).view == old(self).view,
            final(self).marks == old(self).marks,
            final(self).sketch == old(self).sketch,
            final(self).mode == old(self).mode,
    {
        self.noises = self.signals.clone();
    }

    /// Sets the signals to the noises that `feature` selects: a feature that starts with `#`
    /// selects lines, one that starts with `/` matches of a regular expression, any other
    /// selects all of them.
    pub fn filter_signals(&mut self, feature: &Vec<char>) -> (r: Result<(), IntConversionError>)
        requires
            feature@.len() > 0 && feature@[0] == '/' ==> on_lines(old(self).noises@),
        ensures
            feature@.len() > 0 && feature@[0] == '#' ==> r is Ok && final(self).signals@ == line_filtered(feature@, old(self).noises@),
            feature@.len() > 0 && feature@[0] == '/' ==> pattern_extracted(feature@, old(self).noises@, final(self).signals@, old(self).view.data@, r),
            !(feature@.len() > 0 && (feature@[0] == '#' || feature@[0] == '/')) ==> r is Ok && final(self).signals@ == old(self).noises@,
            final(self).noises == old(self).noises,
            final(self).view == old(self).view,
            final(self).marks == old(self).marks,
            final(self).sketch == old(self).sketch,
            final(self).mode == old(self).mode,
    {
        self.signals = self.noises.clone();
        if feature.len() > 0 {
            let id = feature[0];
            let line_filter = LineFilter;
            let pattern_filter = PatternFilter;
            if id == line_filter.id() {
                return line_filter.extract(feature, &mut self.signals, &self.view);
            } else if id == pattern_filter.id() {
                return pattern_filter.extract(feature, &mut self.signals, &self.view);
            }
        }
        Ok(())
    }

    /// The characters of the command or feature being written.
    pub fn sketch(&self) -> (r: &Vec<char>)
        ensures
            r == &self.sketch,
    {
        &self.sketch
    }

    /// Lends the characters of the command or feature being written, to be changed.
    pub fn sketch_mut(&mut self) -> (r: &mut Vec<char>)
        ensures
            *r == old(self).sketch,
            final(self).sketch == *final(r),
            final(self).view == old(self).view,
            final(self).signals == old(self).signals,
            final(self).noises == old(self).noises,
            final(self).marks == old(self).marks,
            final(self).mode == old(self).mode,
    {
        &mut self.sketch
    }

    /// Returns the edit that shows the sketch on the first row.
    pub fn draw_sketch(&self) -> (r: Edit)
        ensures
            r.region.start.row@ == 0,
            r.region.start.column@ == 0,
            r.region.length == Length::End,
            r.change matches Change::Row(text) && text@ == self.sketch@,
    {
        let region = Region::origin();
        Edit::new(region, Change::Row(self.sketch.clone()))
    }

    /// Returns the edits that draw the rows 0 to `height - 1` in the default color; fails on a
    /// row that is no index, with the edits of the rows before it.
    pub fn clear_background(&self, height: usize) -> (r: (Vec<Edit>, Result<(), IntConversionError>))
        ensures
            r.0@.len() == if height <= i32::MAX + 1 { height as int } else { i32::MAX + 1 },
            r.1 is Ok <==> height <= i32::MAX + 1,
            forall|k: int|
                0 <= k < r.0@.len() ==> {
                    &&& (#[trigger] r.0@[k]).region.start.row@ == k
                    &&& r.0@[k].region.start.column@ == 0
                    &&& r.0@[k].region.length == Length::End
                    &&& r.0@[k].change == Change::Format(Color::Default)
                },
    {
        let mut edits: Vec<Edit> = Vec::new();
        let mut row: usize = 0;
        while row < height
            invariant
                row <= height,
                row <= i32::MAX + 1,
                edits@.len() == row,
                forall|k: int|
                    0 <= k < row ==> {
                        &&& (#[trigger] edits@[k]).region.start.row@ == k
                        &&& edits@[k].region.start.column@ == 0
                        &&& edits@[k].region.length == Length::End
                        &&& edits@[k].change == Change::Format(Color::Default)
                    },
            decreases height - row,
        {
            match Region::row(row) {
                Ok(region) => edits.push(self.format_region(region, Color::Default)),
                Err(e) => return (edits, Err(e)),
            }
            row = row + 1;
        }
        (edits, Ok(()))
    }

    /// Moves the first line shown by `movement` lines and returns the edits that show the view
    /// on a grid of `height` rows.
    pub fn scroll(&mut self, movement: i32, height: usize) -> (r: Vec<Edit>)
        requires
            old(self).view.first_line@ + movement != 0,
            height >= 2 && scrolled_line(
                old(self).view.first_line@,
                movement as int,
                old(self).view.line_count as nat,
            ) - 1 < spec_lines(old(self).view.data@).len() ==> old(self).view.margin_width >= 1,
        ensures
            r@.len() == if height < redraw_count(final(self).view) {
                height as nat
            } else {
                redraw_count(final(self).view)
            },
            forall|k: int| 0 <= k < r@.len() ==> is_redraw_edit(final(self).view, k, #[trigger] r@[k]),
            final(self).view.first_line@ == scrolled_line(
                old(self).view.first_line@,
                movement as int,
                old(self).view.line_count as nat,
            ),
            final(self).view.path == old(self).view.path,
            final(self).view.data == old(self).view.data,
            final(self).view.margin_width == old(self).view.margin_width,
            final(self).view.line_count == old(self).view.line_count,
    {
        self.view.scroll(movement);
        self.display_view(height)
    }

    /// Returns the edits that draw the noises in blue and then the signals in red, for those
    /// whose start is shown.
    pub fn draw_filter_backgrounds(&self) -> (r: Vec<Edit>)
        ensures
            ({
                let expected = section_edits(self.view, self.noises@, Color::Blue) + section_edits(
                    self.view,
                    self.signals@,
                    Color::Red,
                );
                &&& r@.len() == expected.len()
                &&& forall|k: int| 0 <= k < r@.len() ==> is_section_edit(#[trigger] r@[k], expected[k])
            }),
    {
        let mut edits: Vec<Edit> = Vec::new();
        let mut i: usize = 0;
        while i < self.noises.len()
            invariant
                i <= self.noises@.len(),
                edits@.len() == section_edits(self.view, self.noises@.take(i as int), Color::Blue).len(),
                forall|k: int| 0 <= k < edits@.len() ==> is_section_edit(
                    #[trigger] edits@[k],
                    section_edits(self.view, self.noises@.take(i as int), Color::Blue)[k],
                ),
            decreases self.noises@.len() - i,
        {
            assert(self.noises@.take(i + 1).drop_last() == self.noises@.take(i as int));
            let ghost old_edits = edits@;
            if let Some(edit) = self.format_section(&self.noises[i], Color::Blue) {
                edits.push(edit);
            }
            assert forall|k: int| 0 <= k < edits@.len() implies is_section_edit(
                #[trigger] edits@[k],
                section_edits(self.view, self.noises@.take(i + 1), Color::Blue)[k],
            ) by {
                if k < old_edits.len() {
                    assert(edits@[k] == old_edits[k]);
                }
            }
            i = i + 1;
        }
        assert(self.noises@.take(self.noises@.len() as int) == self.noises@);
        let ghost blue = section_edits(self.view, self.noises@, Color::Blue);
        let mut j: usize = 0;
        while j < self.signals.len()
            invariant
                j <= self.signals@.len(),
                blue == section_edits(self.view, self.noises@, Color::Blue),
                edits@.len() == blue.len() + section_edits(self.view, self.signals@.take(j as int), Color::Red).len(),
                forall|k: int| 0 <= k < blue.len() ==> is_section_edit(#[trigger] edits@[k], blue[k]),
                forall|k: int| 0 <= k < section_edits(self.view, self.signals@.take(j as int), Color::Red).len()
                    ==> is_section_edit(
                    #[trigger] edits@[blue.len() + k],
                    section_edits(self.view, self.signals@.take(j as int), Color::Red)[k],
                ),
            decreases self.signals@.len() - j,
        {
            assert(self.signals@.take(j + 1).drop_last() == self.signals@.take(j as int));
            let ghost old_edits = edits@;
            if let Some(edit) = self.format_section(&self.signals[j], Color::Red) {
                edits.push(edit);
            }
            let ghost red = section_edits(self.view, self.signals@.take(j + 1), Color::Red);
            assert forall|k: int| 0 <= k < red.len() implies is_section_edit(
                #[trigger] edits@[blue.len() + k],
                red[k],
            ) by {
                if blue.len() + k < old_edits.len() {
                    assert(edits@[blue.len() + k] == old_edits[blue.len() + k]);
                }
            }
            assert forall|k: int| 0 <= k < blue.len() implies is_section_edit(#[trigger] edits@[k], blue[k]) by {
                assert(edits@[k] == old_edits[k]);
            }
            j = j + 1;
        }
        assert(self.signals@.take(self.signals@.len() as int) == self.signals@);
        let ghost expected = blue + section_edits(self.view, self.signals@, Color::Red);
        assert forall|k: int| 0 <= k < edits@.len() implies is_section_edit(#[trigger] edits@[k], expected[k]) by {
            if k >= blue.len() {
                assert(edits@[blue.len() + (k - blue.len())] == edits@[k]);
            }
        }
        edits
    }

    /// Returns the edit that draws `section` in `color`, if its start is shown.
    pub fn format_section(&self, section: &Section, color: Color) -> (r: Option<Edit>)
        ensures
            match r {
                Some(edit) => {
                    let distance = section.start.line@ - self.view.first_line@;
                    &&& 0 <= distance <= i32::MAX
                    &&& self.view.margin_width <= i32::MAX
                    &&& edit.region.start.row@ == distance
                    &&& edit.region.start.column@ == clamp_index(section.start.column@ + self.view.margin_width)
                    &&& edit.region.length == section.length
                    &&& edit.change == Change::Format(color)
                },
                None => {
                    let distance = section.start.line@ - self.view.first_line@;
                    distance < 0 || distance > i32::MAX || self.view.margin_width > i32::MAX
                },
            },
    {
        match self.view.region_at(section) {
            Some(region) => Some(self.format_region(region, color)),
            None => None,
        }
    }

    /// Returns the edit that draws `region` in `color`.
    pub fn format_region(&self, region: Region, color: Color) -> (r: Edit)
        ensures
            r.region == region,
            r.change == Change::Format(color),
    {
        Edit::new(region, Change::Format(color))
    }

    /// Places a mark on each signal, at the edge `edge` of it.
    pub fn set_marks(&mut self, edge: Edge)
        requires
            on_lines(old(self).signals@),
        ensures
            final(self).marks@.len() == old(self).signals@.len(),
            forall|i: int|
                0 <= i < final(self).marks@.len() ==> is_mark_for(
                    #[trigger] final(self).marks@[i],
                    old(self).signals@[i],
                    edge,
                    old(self).view.data@,
                ),
            final(self).view == old(self).view,
            final(self).signals == old(self).signals,
            final(self).noises == old(self).noises,
            final(self).sketch == old(self).sketch,
            final(self).mode == old(self).mode,
    {
        self.marks.clear();
        let mut i: usize = 0;
        while i < self.signals.len()
            invariant
                i <= self.signals@.len(),
                on_lines(self.signals@),
                self.view == old(self).view,
                self.signals == old(self).signals,
                self.noises == old(self).noises,
                self.sketch == old(self).sketch,
                self.mode == old(self).mode,
                self.marks@.len() == i,
                forall|k: int|
                    0 <= k < i ==> is_mark_for(
                        #[trigger] self.marks@[k],
                        self.signals@[k],
                        edge,
                        self.view.data@,
                    ),
            decreases self.signals@.len() - i,
        {
            let signal = self.signals[i];
            assert(signal.start.line@ >= 1);
            let mut place = signal.start;
            if edge == Edge::End {
                place.column = match Index::try_from_length(signal.length) {
                    Ok(length) => place.column.shifted(length.value() - 1),
                    Err(_) => {
                        let line_end = match self.view.line_length(signal.start) {
                            Some(x) => x,
                            None => Index::zero(),
                        };
                        Index::zero().shifted(line_end.value() - 1)
                    },
                };
            }
            let row = place.line.row();
            let data_len = self.view.data.len();
            assert(self.view.data@.len() == data_len);
            let ghost expected = spec_row_offset(self.view.data@, row as nat);
            let start = match self.view.row_start(row) {
                Some(n) => match Index::try_from_usize(n) {
                    Ok(index) => Some(index),
                    Err(_) => None,
                },
                None => None,
            };
            assert(match expected {
                Some(n) => if n <= i32::MAX {
                    start matches Some(x) && x@ == n
                } else {
                    start is None
                },
                None => start is None,
            });
            let mut pointer = Pointer(start);
            pointer.add_assign(place.column.value());
            let mark = Mark { place, pointer };
            assert(mark.place.column@ == mark_column(signal, edge, self.view.data@));
            assert(pointer_model(mark.pointer) == mark_pointer(signal.start.line@, mark.place.column@, self.view.data@));
            let ghost old_marks = self.marks@;
            self.marks.push(mark);
            assert forall|k: int| 0 <= k < i + 1 implies is_mark_for(
                #[trigger] self.marks@[k],
                self.signals@[k],
                edge,
                self.view.data@,
            ) by {
                if k < i {
                    assert(self.marks@[k] == old_marks[k]);
                }
            }
            i = i + 1;
        }
    }

    /// Sets the mode.
    pub fn change_mode(&mut self, mode: Mode)
        ensures
            final(self).mode == mode,
            final(self).view == old(self).view,
            final(self).sketch == old(self).sketch,
            final(self).signals == old(self).signals,
            final(self).noises == old(self).noises,
            final(self).marks == old(self).marks,
    {
        self.mode = mode;
    }

    /// The number of lines that one scroll moves on a grid of `grid_height` rows: a quarter of
    /// it.
    pub fn scroll_height(&self, grid_height: usize) -> (r: usize)
        ensures
            r == grid_height / 4,
    {
        grid_height / 4
    }
}

} // verus!
