//! The UI system's decisions: while a dialog box is open, the advance key
//! turns its page (and closes it past the last page). Drawing the box is the
//! host's business.

use crate::ui::DialogBox;
use crate::ui::UiState;
use vstd::prelude::*;

verus! {

pub struct UiSystem;

impl UiSystem {
    /// One tick of the dialog UI: with a dialog open and the advance key
    /// pressed, the dialog turns to its next page, or closes if it was on
    /// the last one. Otherwise nothing changes.
    pub fn run(ui: &mut UiState, advance_pressed: bool)
        ensures
            final(ui).char_widths == old(ui).char_widths,
            final(ui).wrap_width == old(ui).wrap_width,
            match old(ui).dialog_box {
                None => final(ui).dialog_box is None,
                Some(d) => {
                    if !advance_pressed {
                        final(ui).dialog_box == old(ui).dialog_box
                    } else if d.current_page + 1 < d.text_pages@.len() {
                        final(ui).dialog_box == Some(
                            DialogBox { current_page: (d.current_page + 1) as usize, ..d },
                        )
                    } else {
                        final(ui).dialog_box is None
                    }
                },
            },
    {
        if ui.is_engaged() && advance_pressed {
            ui.dialog_next_page();
        }
    }
}

} // verus!
