//! The "Edit Link" command: what the link dialog starts with, and what saving
//! it does to the note.
use vstd::prelude::*;

verus! {

/// What the pointer rests on when the command runs.
#[derive(Debug, Clone, PartialEq, Eq)]
pub enum Hovered {
    /// A link, with its destination and its text.
    Link { destination: String, text: String },
    /// Something under the pointer that is not a link.
    Other,
    /// Nothing.
    Nothing,
}

/// What the link dialog opens with.
#[derive(Debug, Clone, PartialEq, Eq)]
pub struct LinkDialogInit {
    pub target: String,
    pub text: String,
    /// The dialog edits the hovered link (and offers to remove it).
    pub existing_link: bool,
    /// The dialog turns the selected text into a link.
    pub selection_mode: bool,
}

/// The dialog's starting values: a hovered link's destination and text; else
/// the selected text, when there is a selection and nothing is hovered; else
/// nothing.
pub fn link_dialog_initial(hovered: Hovered, selection: Option<String>) -> (r: LinkDialogInit)
    ensures
        match hovered {
            Hovered::Link { destination, text } => r.target@ == destination@ && r.text@ == text@
                && r.existing_link && !r.selection_mode,
            Hovered::Other => r.target@.len() == 0 && r.text@.len() == 0 && !r.existing_link
                && !r.selection_mode,
            Hovered::Nothing => match selection {
                Some(t) => r.target@.len() == 0 && r.text@ == t@ && !r.existing_link
                    && r.selection_mode,
                None => r.target@.len() == 0 && r.text@.len() == 0 && !r.existing_link
                    && !r.selection_mode,
            },
        },
{
    match hovered {
        Hovered::Link { destination, text } => LinkDialogInit {
            target: destination,
            text,
            existing_link: true,
            selection_mode: false,
        },
        Hovered::Other => LinkDialogInit {
            target: String::new(),
            text: String::new(),
            existing_link: false,
            selection_mode: false,
        },
        Hovered::Nothing => match selection {
            Some(t) => LinkDialogInit {
                target: String::new(),
                text: t,
                existing_link: false,
                selection_mode: true,
            },
            None => LinkDialogInit {
                target: String::new(),
                text: String::new(),
                existing_link: false,
                selection_mode: false,
            },
        },
    }
}

/// What saving the dialog does.
#[derive(Debug, Clone, Copy, PartialEq, Eq, Structural)]
pub enum LinkSave {
    /// Rewrite the link the dialog was opened on.
    EditExisting,
    /// Turn the current selection into the link.
    ReplaceSelection,
    /// Insert the link at the cursor.
    InsertAtCursor,
    /// Leave the note alone.
    Nothing,
}

/// The edit that saving makes: the existing link is rewritten; otherwise a
/// link with text replaces the selection, or goes in at the cursor when
/// nothing is selected; a new link without text is not made.
pub fn link_save_action(existing_link: bool, text: &str, has_selection: bool) -> (r: LinkSave)
    ensures
        r == (if existing_link {
            LinkSave::EditExisting
        } else if text@.len() == 0 {
            LinkSave::Nothing
        } else if has_selection {
            LinkSave::ReplaceSelection
        } else {
            LinkSave::InsertAtCursor
        }),
{
    if existing_link {
        LinkSave::EditExisting
    } else if text.unicode_len() == 0 {
        LinkSave::Nothing
    } else if has_selection {
        LinkSave::ReplaceSelection
    } else {
        LinkSave::InsertAtCursor
    }
}

} // verus!
