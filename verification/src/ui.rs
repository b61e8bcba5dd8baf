//! Dialog-box state. Window layout and drawing belong to the host; the
//! library owns which dialog is open, its paging, and when the UI captures
//! input.

use crate::constants::DIALOG_LINES_PER_PAGE;
use crate::constants::DIALOG_LINES_PER_PAGE_WITH_TITLE;
use crate::text::chunk_spec;
use crate::text::chunk_text;
use crate::text::CharWidths;
use vstd::prelude::*;

verus! {

/// Configuration of a dialog to open: the message, an optional window title
/// and speaker portrait (an id the host maps to a texture), and optional
/// choices.
#[derive(Clone, Debug)]
pub struct DialogBoxConf {
    pub message: String,
    pub title: Option<String>,
    pub portrait: Option<u32>,
    pub choices: Vec<String>,
}

/// `DialogBoxConf` with its strings abstracted to character sequences, for
/// contracts.
#[verifier::ext_equal]
pub struct DialogBoxConfView {
    pub message: Seq<char>,
    pub title: Option<Seq<char>>,
    pub portrait: Option<u32>,
    pub choices: Seq<Seq<char>>,
}

impl View for DialogBoxConf {
    type V = DialogBoxConfView;

    open spec fn view(&self) -> DialogBoxConfView {
        DialogBoxConfView {
            message: self.message@,
            title: match self.title {
                Some(t) => Some(t@),
                None => None,
            },
            portrait: self.portrait,
            choices: self.choices.deep_view(),
        }
    }
}

/// An open dialog box: the message broken into pages, the page currently
/// shown, and the decoration the host renders around it.
#[derive(Debug)]
pub struct DialogBox {
    pub text_pages: Vec<String>,
    pub current_page: usize,
    pub title: Option<String>,
    pub portrait: Option<u32>,
    pub choices: Vec<String>,
}

/// `DialogBox` with its strings abstracted to character sequences, for
/// contracts.
#[verifier::ext_equal]
pub struct DialogBoxView {
    pub text_pages: Seq<Seq<char>>,
    pub current_page: int,
    pub title: Option<Seq<char>>,
    pub portrait: Option<u32>,
    pub choices: Seq<Seq<char>>,
}

impl View for DialogBox {
    type V = DialogBoxView;

    open spec fn view(&self) -> DialogBoxView {
        DialogBoxView {
            text_pages: self.text_pages.deep_view(),
            current_page: self.current_page as int,
            title: match self.title {
                Some(t) => Some(t@),
                None => None,
            },
            portrait: self.portrait,
            choices: self.choices.deep_view(),
        }
    }
}

impl DialogBox {
    /// Advances to the next page of text and reports true; reports false if
    /// there is no next page.
    pub fn advance_to_next_page(&mut self) -> (advanced: bool)
        ensures
            advanced == (old(self).current_page + 1 < old(self).text_pages@.len()),
            advanced ==> *final(self) == (DialogBox {
                current_page: (old(self).current_page + 1) as usize,
                ..*old(self)
            }),
            !advanced ==> *final(self) == *old(self),
    {
        let n = self.text_pages.len();
        if self.current_page < n && self.current_page + 1 < n {
            self.current_page = self.current_page + 1;
            return true;
        }
        false
    }
}

/// What the UI owns: the width table and wrap width of the host's dialog
/// font, and the dialog box that is currently open, if any.
pub struct UiState {
    pub char_widths: CharWidths,
    pub wrap_width: u32,
    pub dialog_box: Option<DialogBox>,
}

/// `UiState` with the open dialog abstracted, for contracts.
#[verifier::ext_equal]
pub struct UiStateView {
    pub char_widths: Seq<(char, u32)>,
    pub wrap_width: u32,
    pub dialog_box: Option<DialogBoxView>,
}

impl View for UiState {
    type V = UiStateView;

    open spec fn view(&self) -> UiStateView {
        UiStateView {
            char_widths: self.char_widths.entries@,
            wrap_width: self.wrap_width,
            dialog_box: match self.dialog_box {
                Some(ref d) => Some(d@),
                None => None,
            },
        }
    }
}

/// The dialog that `create_dialog_box` opens for `conf` under the given
/// width table: the message chunked into pages of
/// `DIALOG_LINES_PER_PAGE` lines (one fewer when a title bar takes a line),
/// starting on the first page.
pub open spec fn dialog_for_conf(
    conf: DialogBoxConfView,
    char_widths: Seq<(char, u32)>,
    wrap_width: u32,
) -> DialogBoxView {
    let lines_per_page: int = if conf.title is Some {
        DIALOG_LINES_PER_PAGE_WITH_TITLE as int
    } else {
        DIALOG_LINES_PER_PAGE as int
    };
    DialogBoxView {
        text_pages: chunk_spec(conf.message, wrap_width as int, lines_per_page, char_widths),
        current_page: 0,
        title: conf.title,
        portrait: conf.portrait,
        choices: conf.choices,
    }
}

impl UiState {
    /// Whether typical player input should be directed at the UI rather than
    /// the game world.
    pub fn is_engaged(&self) -> (engaged: bool)
        ensures
            engaged == (self@.dialog_box is Some),
    {
        self.dialog_box.is_some()
    }

    /// Opens a dialog box for `conf`, replacing any dialog already open.
    pub fn create_dialog_box(&mut self, conf: &DialogBoxConf)
        ensures
            final(self)@.dialog_box == Some(
                dialog_for_conf(conf@, old(self)@.char_widths, old(self).wrap_width),
            ),
            final(self).char_widths == old(self).char_widths,
            final(self).wrap_width == old(self).wrap_width,
    {
        let lines_per_page: usize = if conf.title.is_some() {
            DIALOG_LINES_PER_PAGE_WITH_TITLE
        } else {
            DIALOG_LINES_PER_PAGE
        };
        let text_pages = chunk_text(
            conf.message.as_str(),
            self.wrap_width,
            lines_per_page,
            &self.char_widths,
        );
        let title = match &conf.title {
            Some(t) => Some(t.clone()),
            None => None,
        };
        let choices = clone_string_vec(&conf.choices);
        let dialog = DialogBox { text_pages, current_page: 0, title, portrait: conf.portrait, choices };
        proof {
            assert(dialog@ =~= dialog_for_conf(conf@, self@.char_widths, self.wrap_width));
        }
        self.dialog_box = Some(dialog);
    }

    /// Advances the open dialog to its next page; advancing past the last
    /// page closes the dialog. Without an open dialog this is a no-op.
    pub fn dialog_next_page(&mut self)
        ensures
            final(self).char_widths == old(self).char_widths,
            final(self).wrap_width == old(self).wrap_width,
            match old(self).dialog_box {
                None => final(self).dialog_box is None,
                Some(d) => {
                    if d.current_page + 1 < d.text_pages@.len() {
                        final(self).dialog_box == Some(
                            DialogBox { current_page: (d.current_page + 1) as usize, ..d },
                        )
                    } else {
                        final(self).dialog_box is None
                    }
                },
            },
    {
        let mut taken: Option<DialogBox> = None;
        core::mem::swap(&mut taken, &mut self.dialog_box);
        match taken {
            Some(mut dialog_box) => {
                if dialog_box.advance_to_next_page() {
                    self.dialog_box = Some(dialog_box);
                }
            },
            None => {},
        }
    }
}

/// Copies a list of strings, character for character.
fn clone_string_vec(v: &Vec<String>) -> (r: Vec<String>)
    ensures
        r.deep_view() == v.deep_view(),
{
    let mut r: Vec<String> = Vec::new();
    let n = v.len();
    let mut i: usize = 0;
    proof {
        assert(r.deep_view() =~= v.deep_view().take(0));
    }
    while i < n
        invariant
            0 <= i <= n == v@.len(),
            r.deep_view() == v.deep_view().take(i as int),
        decreases n - i,
    {
        let ghost pre = r.deep_view();
        r.push(v[i].clone());
        proof {
            assert(r.deep_view() =~= pre.push(v@[i as int]@));
            assert(pre.push(v@[i as int]@) =~= v.deep_view().take(i + 1));
        }
        i = i + 1;
    }
    proof {
        assert(v.deep_view().take(n as int) =~= v.deep_view());
    }
    r
}

} // verus!
