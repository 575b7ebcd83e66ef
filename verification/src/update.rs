//! Applying a typed character at every mark at once.
use crate::adjustment::{
    adjusted_column, adjusted_line, model_add, model_create, model_fits, Adjustment,
    AdjustmentModel,
};
use crate::convert::IntConversionError;
use crate::paper::{pointer_model, Paper};
use crate::place::Mark;
use crate::text::spec_lines;
use crate::ui::{clamp_index, Change, Edit, Index, Length, BACKSPACE};
use crate::view::{applied_at, applies_at, is_redraw_edit, margin_for, redraw_count};
use vstd::prelude::*;
use vstd::view::View as _;

verus! {

/// The adjustment that moves nothing.
pub open spec fn zero_adjustment() -> AdjustmentModel {
    AdjustmentModel {
        shift: 0,
        line_change: 0,
        indexes: Map::<u32, int>::empty(),
        change: Change::Nothing,
    }
}

/// Whether `c` can be applied to `data` at `pointer`, an offset in its UTF-8 form: a
/// backspace needs a character that starts at the pointer, another character needs one that
/// starts at the byte before it, or the end of the text there.
pub open spec fn add_ok(data: Seq<char>, pointer: Option<int>, c: char) -> bool {
    match pointer {
        Some(i) => applies_at(data, i, c),
        None => true,
    }
}

/// The text after `c` is applied at `pointer`: a backspace removes the character that starts
/// at it, another character is inserted at the byte before it.
pub open spec fn add_at(data: Seq<char>, pointer: Option<int>, c: char) -> Seq<char> {
    match pointer {
        Some(i) => applied_at(data, i, c),
        None => data,
    }
}

/// The pointer `pointer` moved by `shift`.
pub open spec fn shifted_pointer(pointer: Option<int>, shift: int) -> Option<int> {
    match pointer {
        Some(i) => Some(i + shift),
        None => None,
    }
}

/// The adjustment so far and the text after `c` was applied at the first `n` marks of
/// `marks`, starting from the text `data`.
pub open spec fn state_after(marks: Seq<Mark>, n: int, c: char, data: Seq<char>) -> (
    AdjustmentModel,
    Seq<char>,
)
    decreases n,
{
    if n <= 0 {
        (zero_adjustment(), data)
    } else {
        let (adjustment, text) = state_after(marks, n - 1, c, data);
        let mark = marks[n - 1];
        match model_create(c, mark.place, text) {
            None => (adjustment, text),
            Some(created) => {
                let merged = model_add(adjustment, created);
                (merged, add_at(text, shifted_pointer(pointer_model(mark.pointer), merged.shift), c))
            },
        }
    }
}

/// Whether applying `c` at mark `n` of `marks` moves its pointer below 0, the text being
/// `data` before the first mark.
pub open spec fn pointer_underflows(marks: Seq<Mark>, n: int, c: char, data: Seq<char>) -> bool {
    let (adjustment, text) = state_after(marks, n, c, data);
    match (model_create(c, marks[n].place, text), pointer_model(marks[n].pointer)) {
        (Some(created), Some(i)) => i + model_add(adjustment, created).shift < 0,
        _ => false,
    }
}

/// The first of the first `n` marks at which applying `c` moves the pointer below 0; `n` if
/// there is none.
pub open spec fn first_underflow(marks: Seq<Mark>, n: int, c: char, data: Seq<char>) -> int
    decreases n,
{
    if n <= 0 {
        0
    } else if first_underflow(marks, n - 1, c, data) < n - 1 {
        first_underflow(marks, n - 1, c, data)
    } else if pointer_underflows(marks, n - 1, c, data) {
        n - 1
    } else {
        n
    }
}

/// Whether `c` can be applied at every mark of `marks` up to the first whose pointer it moves
/// below 0, without overflow and without applying it outside the text.
pub open spec fn update_safe(marks: Seq<Mark>, c: char, data: Seq<char>) -> bool {
    let stop = first_underflow(marks, marks.len() as int, c, data);
    forall|n: int|
        0 <= n <= stop && n < marks.len() ==> {
            let (adjustment, text) = #[trigger] state_after(marks, n, c, data);
            &&& c == BACKSPACE && marks[n].place.column@ == 0 ==> marks[n].place.line@ >= 1
            &&& match model_create(c, marks[n].place, text) {
                None => true,
                Some(created) => {
                    let merged = model_add(adjustment, created);
                    let moved = shifted_pointer(pointer_model(marks[n].pointer), merged.shift);
                    &&& model_fits(merged)
                    &&& n < stop ==> add_ok(text, moved, c)
                    &&& n < stop ==> (moved matches Some(i) ==> i <= i32::MAX)
                },
            }
        }
}

/// Once a mark before `n` moves its pointer below 0, the first such mark stays the first.
proof fn lemma_first_underflow_stays(marks: Seq<Mark>, k: int, n: int, c: char, data: Seq<char>)
    requires
        0 <= k <= n,
        first_underflow(marks, k, c, data) < k,
    ensures
        first_underflow(marks, n, c, data) == first_underflow(marks, k, c, data),
    decreases n - k,
{
    if n > k {
        lemma_first_underflow_stays(marks, k, n - 1, c, data);
    }
}

/// When none of the first `k` marks moves its pointer below 0, the first that does is not
/// among them.
proof fn lemma_first_underflow_after(marks: Seq<Mark>, k: int, n: int, c: char, data: Seq<char>)
    requires
        0 <= k <= n,
        first_underflow(marks, k, c, data) == k,
    ensures
        first_underflow(marks, n, c, data) >= k,
    decreases n - k,
{
    if n > k {
        lemma_first_underflow_after(marks, k, n - 1, c, data);
    }
}

/// The first underflow among `n` marks is at most `n`.
proof fn lemma_first_underflow_bounded(marks: Seq<Mark>, n: int, c: char, data: Seq<char>)
    requires
        0 <= n,
    ensures
        0 <= first_underflow(marks, n, c, data) <= n,
    decreases n,
{
    if n > 0 {
        lemma_first_underflow_bounded(marks, n - 1, c, data);
    }
}

/// Whether `after` is mark `n` of `marks` once `c` is applied at every mark: unchanged if no
/// adjustment is created for it, otherwise moved by the adjustment so far.
pub open spec fn is_mark_after(after: Mark, marks: Seq<Mark>, n: int, c: char, data: Seq<char>) -> bool {
    let (adjustment, text) = state_after(marks, n, c, data);
    let mark = marks[n];
    match model_create(c, mark.place, text) {
        None => after == mark,
        Some(created) => {
            let merged = model_add(adjustment, created);
            let line = adjusted_line(mark.place.line@, merged);
            &&& pointer_model(after.pointer) == shifted_pointer(pointer_model(mark.pointer), merged.shift)
            &&& after.place.line@ == line
            &&& after.place.column@ == adjusted_column(mark.place.column@, line, merged)
        },
    }
}

/// The edit that applying `c` at mark `n` shows, as its row, its column and its change: where
/// the mark was, unless the change so far is a clear or the mark is not shown.
pub open spec fn mark_edit(
    marks: Seq<Mark>,
    n: int,
    c: char,
    data: Seq<char>,
    first_line: nat,
    margin: nat,
) -> Option<(int, int, Change)> {
    let (adjustment, text) = state_after(marks, n, c, data);
    let mark = marks[n];
    match model_create(c, mark.place, text) {
        None => None,
        Some(created) => {
            let merged = model_add(adjustment, created);
            let distance = mark.place.line@ - first_line;
            if merged.change != Change::Clear && 0 <= distance <= i32::MAX && margin <= i32::MAX {
                Some((distance, clamp_index(mark.place.column@ + margin), merged.change))
            } else {
                None
            }
        },
    }
}

/// The edits that applying `c` at the first `n` marks shows, in order.
pub open spec fn mark_edits(
    marks: Seq<Mark>,
    n: int,
    c: char,
    data: Seq<char>,
    first_line: nat,
    margin: nat,
) -> Seq<(int, int, Change)>
    decreases n,
{
    if n <= 0 {
        Seq::empty()
    } else {
        mark_edits(marks, n - 1, c, data, first_line, margin) + match mark_edit(
            marks,
            n - 1,
            c,
            data,
            first_line,
            margin,
        ) {
            Some(e) => seq![e],
            None => Seq::empty(),
        }
    }
}

/// Whether `edit` shows the change `e` at the one cell of a mark.
pub open spec fn is_mark_edit(edit: Edit, e: (int, int, Change)) -> bool {
    &&& edit.region.start.row@ == e.0
    &&& edit.region.start.column@ == e.1
    &&& edit.region.length == Length::Count(Index::spec_one())
    &&& edit.change == e.2
}

/// Whether a change is the text of a row.
pub open spec fn is_row(change: Change) -> bool {
    change is Row
}

impl Paper {
    /// Applies the character `c` at every mark, in order, each mark moved by what was applied
    /// before it; appends to `edits` the changes of the grid that show it at each mark, and,
    /// when a line was split or joined, the edits that redraw the view on `height` rows once
    /// its lines are counted again.  Fails with `Underflow` at the first mark whose pointer
    /// the character would move below 0: the marks before it are moved and the text changed
    /// at them, that mark and those after it are left as they were.
    pub fn update_view(&mut self, c: char, height: usize, edits: &mut Vec<Edit>) -> (r: Result<
        (),
        IntConversionError,
    >)
        requires
            update_safe(old(self).marks@, c, old(self).view.data@),
            first_underflow(old(self).marks@, old(self).marks@.len() as int, c, old(self).view.data@)
                == old(self).marks@.len() && state_after(
                old(self).marks@,
                old(self).marks@.len() as int,
                c,
                old(self).view.data@,
            ).0.change == Change::Clear ==> old(self).view.first_line@ >= 1,
        ensures
            ({
                let marks = old(self).marks@;
                let n = marks.len() as int;
                let data = old(self).view.data@;
                let stop = first_underflow(marks, n, c, data);
                let (adjustment, text) = state_after(marks, stop, c, data);
                let shown = mark_edits(
                    marks,
                    if stop < n {
                        stop + 1
                    } else {
                        n
                    },
                    c,
                    data,
                    old(self).view.first_line@,
                    old(self).view.margin_width as nat,
                );
                let base = old(edits)@.len() + shown.len();
                &&& final(self).marks@.len() == n
                &&& forall|i: int| 0 <= i < stop ==> is_mark_after(#[trigger] final(self).marks@[i], marks, i, c, data)
                &&& forall|i: int| stop <= i < n ==> #[trigger] final(self).marks@[i] == marks[i]
                &&& final(self).view.data@ == text
                &&& final(self).view.first_line == old(self).view.first_line
                &&& final(self).view.path == old(self).view.path
                &&& final(edits)@.len() >= base
                &&& forall|i: int| 0 <= i < old(edits)@.len() ==> #[trigger] final(edits)@[i] == old(edits)@[i]
                &&& forall|i: int| 0 <= i < shown.len() ==> is_mark_edit(#[trigger] final(edits)@[old(edits)@.len() + i], shown[i])
                &&& if stop < n {
                    &&& r == Err::<(), IntConversionError>(IntConversionError::Underflow)
                    &&& final(edits)@.len() == base
                    &&& final(self).view.line_count == old(self).view.line_count
                    &&& final(self).view.margin_width == old(self).view.margin_width
                } else if adjustment.change == Change::Clear {
                    &&& final(self).view.line_count == spec_lines(text).len()
                    &&& match r {
                        Ok(()) => {
                            &&& final(self).view.margin_width == margin_for(final(self).view.line_count as nat)
                            &&& final(edits)@.len() == base + if height < redraw_count(final(self).view) {
                                height as nat
                            } else {
                                redraw_count(final(self).view)
                            }
                            &&& forall|k: int| 0 <= k < final(edits)@.len() - base ==> is_redraw_edit(final(self).view, k, #[trigger] final(edits)@[base + k])
                        },
                        Err(e) => e == IntConversionError::Overflow && final(self).view.line_count + 1 > u32::MAX
                            && final(edits)@.len() == base && final(self).view.margin_width
                            == old(self).view.margin_width,
                    }
                } else {
                    &&& r is Ok
                    &&& final(edits)@.len() == base
                    &&& final(self).view.line_count == old(self).view.line_count
                    &&& final(self).view.margin_width == old(self).view.margin_width
                }
            }),
            final(self).signals == old(self).signals,
            final(self).noises == old(self).noises,
            final(self).sketch == old(self).sketch,
            final(self).mode == old(self).mode,
    {
        let ghost marks0 = self.marks@;
        let ghost data0 = self.view.data@;
        let ghost first_line = self.view.first_line@;
        let ghost margin = self.view.margin_width as nat;
        let ghost edits0 = edits@;
        let mut adjustment = Adjustment::none();
        assert(adjustment.model().indexes =~= zero_adjustment().indexes);
        let n = self.marks.len();
        proof {
            lemma_first_underflow_bounded(marks0, n as int, c, data0);
        }
        let ghost stop = first_underflow(marks0, n as int, c, data0);
        let mut i: usize = 0;
        let mut failed = false;
        while i < n && !failed
            invariant
                i <= n,
                n == marks0.len(),
                update_safe(marks0, c, data0),
                stop == first_underflow(marks0, n as int, c, data0),
                first_underflow(marks0, i as int, c, data0) == i,
                i <= stop <= n,
                failed ==> i == stop && i < n,
                self.marks@.len() == n,
                !failed ==> adjustment.model() == state_after(marks0, i as int, c, data0).0,
                self.view.data@ == state_after(marks0, i as int, c, data0).1,
                !failed ==> !is_row(adjustment.change),
                forall|k: int| 0 <= k < i ==> is_mark_after(#[trigger] self.marks@[k], marks0, k, c, data0),
                forall|k: int| i <= k < n ==> #[trigger] self.marks@[k] == marks0[k],
                self.view.first_line@ == first_line,
                self.view.margin_width == margin,
                self.view.path == old(self).view.path,
                self.view.line_count == old(self).view.line_count,
                self.view.first_line == old(self).view.first_line,
                self.signals == old(self).signals,
                self.noises == old(self).noises,
                self.sketch == old(self).sketch,
                self.mode == old(self).mode,
                edits@.len() == edits0.len() + mark_edits(marks0, i + failed as int, c, data0, first_line, margin).len(),
                forall|k: int| 0 <= k < edits0.len() ==> #[trigger] edits@[k] == edits0[k],
                forall|k: int| 0 <= k < mark_edits(marks0, i + failed as int, c, data0, first_line, margin).len()
                    ==> is_mark_edit(
                    #[trigger] edits@[edits0.len() + k],
                    mark_edits(marks0, i + failed as int, c, data0, first_line, margin)[k],
                ),
            decreases n - i + !failed as int,
        {
            let ghost before = state_after(marks0, i as int, c, data0);
            let ghost shown_before = mark_edits(marks0, i as int, c, data0, first_line, margin);
            let ghost underflow_here = pointer_underflows(marks0, i as int, c, data0);
            proof {
                if underflow_here {
                    assert(first_underflow(marks0, i + 1, c, data0) == i);
                    lemma_first_underflow_stays(marks0, i + 1, n as int, c, data0);
                } else {
                    assert(first_underflow(marks0, i + 1, c, data0) == i + 1);
                    lemma_first_underflow_after(marks0, i + 1, n as int, c, data0);
                }
            }
            assert((c == BACKSPACE && marks0[i as int].place.column@ == 0 ==> marks0[i as int].place.line@ >= 1) && match model_create(c, marks0[i as int].place, before.1) {
                None => true,
                Some(created) => {
                    let merged = model_add(before.0, created);
                    let moved = shifted_pointer(pointer_model(marks0[i as int].pointer), merged.shift);
                    &&& model_fits(merged)
                    &&& (i < stop ==> add_ok(before.1, moved, c))
                    &&& (i < stop ==> (moved matches Some(j) ==> j <= i32::MAX))
                },
            }) by {
                let _ = state_after(marks0, i as int, c, data0);
            }
            let mut mark = self.marks[i];
            assert(mark == marks0[i as int]);
            assert(mark_edits(marks0, i + 1, c, data0, first_line, margin) == shown_before + match mark_edit(marks0, i as int, c, data0, first_line, margin) {
                Some(e) => seq![e],
                None => Seq::empty(),
            });
            match Adjustment::create(c, mark.place, &self.view) {
                Some(new_adjustment) => {
                    adjustment.add_assign(new_adjustment);
                    let ghost old_edits = edits@;
                    if !matches!(adjustment.change, Change::Clear) {
                        if let Some(region) = self.view.region_at(&mark.place) {
                            edits.push(Edit::new(region, adjustment.change.duplicate()));
                        }
                    }
                    let underflow = match mark.pointer.0 {
                        Some(p) => (p.value() as i64) + (adjustment.shift as i64) < 0,
                        None => false,
                    };
                    if underflow {
                        assert(underflow_here);
                        failed = true;
                    } else {
                        mark.adjust(&adjustment);
                        match self.view.add(&mark, c) {
                            Ok(()) => {},
                            Err(e) => return Err(e),
                        }
                        self.marks.set(i, mark);
                    }
                },
                None => {},
            }
            if !failed {
                assert(!underflow_here);
                i = i + 1;
            }
        }
        if failed {
            return Err(IntConversionError::Underflow);
        }
        let ghost base = edits@.len();
        let ghost prefix = edits@;
        if matches!(adjustment.change, Change::Clear) {
            match self.view.clean() {
                Ok(()) => {},
                Err(e) => return Err(e),
            }
            let display = self.display_view(height);
            let mut k: usize = 0;
            while k < display.len()
                invariant
                    k <= display@.len(),
                    edits@.len() == base + k,
                    prefix.len() == base,
                    forall|j: int| 0 <= j < base ==> #[trigger] edits@[j] == prefix[j],
                    forall|j: int| 0 <= j < k ==> is_redraw_edit(self.view, j, #[trigger] edits@[base + j]),
                    forall|j: int| 0 <= j < display@.len() ==> is_redraw_edit(self.view, j, #[trigger] display@[j]),
                decreases display@.len() - k,
            {
                let edit = display[k].clone_edit();
                assert(is_redraw_edit(self.view, k as int, display@[k as int]));
                edits.push(edit);
                k = k + 1;
            }
        }
        Ok(())
    }
}

} // verus!
