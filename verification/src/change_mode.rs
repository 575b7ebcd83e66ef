//! The operation that changes the mode of the editor.
use crate::paper::{Mode, Paper};
use crate::ui::{Change, Edit, Length};
use crate::view::{is_redraw_edit, redraw_count, shows_lines};
use vstd::prelude::*;

verus! {

/// Changes the [`Mode`] of the editor.
pub struct Op;

impl Op {
    /// The name of the operation.
    pub fn name(&self) -> (s: String)
        ensures
            s@ == "ChangeMode"@,
    {
        String::from_str("ChangeMode")
    }

    /// Enters `mode` and returns the edits that show it on a grid of `height` rows: entering
    /// display mode clears the sketch and shows the view, entering command or filter mode
    /// shows the sketch, entering edit mode shows the view, entering action mode shows
    /// nothing new.
    pub fn operate(&self, paper: &mut Paper, mode: Mode, height: usize) -> (r: Vec<Edit>)
        requires
            mode == Mode::Display || mode == Mode::Edit ==> {
                &&& old(paper).view.first_line@ >= 1
                &&& height >= 2 && shows_lines(old(paper).view) ==> old(paper).view.margin_width >= 1
            },
        ensures
            final(paper).mode == mode,
            final(paper).view == old(paper).view,
            final(paper).signals == old(paper).signals,
            final(paper).noises == old(paper).noises,
            final(paper).marks == old(paper).marks,
            mode == Mode::Display ==> final(paper).sketch@ == Seq::<char>::empty(),
            mode != Mode::Display ==> final(paper).sketch == old(paper).sketch,
            mode == Mode::Display || mode == Mode::Edit ==> {
                &&& r@.len() == if height < redraw_count(old(paper).view) {
                    height as nat
                } else {
                    redraw_count(old(paper).view)
                }
                &&& forall|k: int| 0 <= k < r@.len() ==> is_redraw_edit(old(paper).view, k, #[trigger] r@[k])
            },
            mode == Mode::Command || mode == Mode::Filter ==> {
                &&& r@.len() == 1
                &&& r@[0].region.start.row@ == 0
                &&& r@[0].region.start.column@ == 0
                &&& r@[0].region.length == Length::End
                &&& r@[0].change matches Change::Row(text) && text@ == old(paper).sketch@
            },
            mode == Mode::Action ==> r@.len() == 0,
    {
        let mut edits: Vec<Edit> = Vec::new();
        match mode {
            Mode::Display => {
                paper.sketch.clear();
                edits = paper.display_view(height);
            },
            Mode::Command | Mode::Filter => {
                edits.push(paper.draw_sketch());
            },
            Mode::Action => {},
            Mode::Edit => {
                edits = paper.display_view(height);
            },
        }
        paper.change_mode(mode);
        edits
    }
}

} // verus!
