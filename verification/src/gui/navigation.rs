//! Decisions the desktop application makes when it opens, renames and
//! creates notes, and what its Format menu shows; the windows, dialogs and
//! the file system are the application's, the choices are made here.
use vstd::prelude::*;
use crate::gui::statusbar::half;
use crate::text::{chars_of, push_str, slice, starts_with, string_of, trim, trimmed};

verus! {

// ---------------------------------------------------------------------------
// Opening a note
// ---------------------------------------------------------------------------

/// The status bar's note label: "Plugin: name" for a generated `!name` page,
/// "Note: name (new)" for a note without content yet, else "Note: name".
pub open spec fn note_status(name: Seq<char>, content_empty: bool) -> Seq<char> {
    if name.len() > 0 && name[0] == '!' {
        "Plugin: "@ + name.drop_first()
    } else if content_empty {
        "Note: "@ + name + " (new)"@
    } else {
        "Note: "@ + name
    }
}

/// The note label for `note_name` whose loaded content is (or is not) empty.
pub fn note_status_text(note_name: &str, content_is_empty: bool) -> (r: String)
    ensures
        r@ == note_status(note_name@, content_is_empty),
{
    let v = chars_of(note_name);
    if v.len() > 0 && v[0] == '!' {
        let mut out = chars_of("Plugin: ");
        let rest = slice(v.as_slice(), 1, v.len());
        assert(rest@ =~= note_name@.drop_first());
        crate::text::push_all(&mut out, rest.as_slice());
        string_of(out.as_slice())
    } else if content_is_empty {
        let mut out = chars_of("Note: ");
        push_str(&mut out, note_name);
        push_str(&mut out, " (new)");
        string_of(out.as_slice())
    } else {
        let mut out = chars_of("Note: ");
        push_str(&mut out, note_name);
        string_of(out.as_slice())
    }
}

/// Where a freshly loaded note is scrolled: to the section a link named when
/// that heading was found (its position), else to the position back/forward
/// history restores, else to where the note was last left (while it is still
/// remembered), else to the top.
pub open spec fn scroll_choice(anchor: Option<i32>, restore: Option<i32>, remembered: Option<i32>) -> i32 {
    match anchor {
        Some(a) => a,
        None => match restore {
            Some(p) => p,
            None => match remembered {
                Some(p) => p,
                None => 0,
            },
        },
    }
}

/// The scroll position for a freshly loaded note (see `scroll_choice`).
pub fn scroll_target(anchor: Option<i32>, restore: Option<i32>, remembered: Option<i32>) -> (r: i32)
    ensures
        r == scroll_choice(anchor, restore, remembered),
{
    match anchor {
        Some(a) => a,
        None => match restore {
            Some(p) => p,
            None => match remembered {
                Some(p) => p,
                None => 0,
            },
        },
    }
}

/// What loading a note records: a generated `!page` is read-only and never
/// enters the picker's recency list; any load that is not a step through the
/// back/forward history becomes a new history entry.
#[derive(Debug, Clone, Copy, PartialEq, Eq, Structural)]
pub struct LoadEffects {
    /// The editor is read-only (a generated page).
    pub read_only: bool,
    /// Record the open for the note picker's recency order.
    pub mark_opened: bool,
    /// Push the note onto the back/forward history.
    pub push_history: bool,
}

/// The effects of loading `note_name`; `from_history` is set when the load
/// is a step back or forward (which restores a scroll position).
pub fn load_effects(note_name: &str, from_history: bool) -> (r: LoadEffects)
    ensures
        r.read_only == (note_name@.len() > 0 && note_name@[0] == '!'),
        r.mark_opened == !r.read_only,
        r.push_history == !from_history,
{
    let v = chars_of(note_name);
    let plugin = v.len() > 0 && v[0] == '!';
    LoadEffects { read_only: plugin, mark_opened: !plugin, push_history: !from_history }
}

// ---------------------------------------------------------------------------
// Renaming and creating notes
// ---------------------------------------------------------------------------

/// The name prefix of a quick note that has not been given a real name.
pub const UNTITLED_PREFIX: &'static str = "untitled_";

/// Whether `name` is an auto-generated quick-note name.
pub fn is_untitled(name: &str) -> (r: bool)
    ensures
        r == starts_with(name@, UNTITLED_PREFIX@),
{
    let v = chars_of(name);
    let p = chars_of(UNTITLED_PREFIX);
    crate::text::has_prefix(v.as_slice(), p.as_slice())
}

/// The name of a quick new note created at the local time written as
/// `stamp` (`YYYY-MM-DD_HHMMSS`).
pub fn untitled_note_name(stamp: &str) -> (r: String)
    ensures
        r@ == UNTITLED_PREFIX@ + stamp@,
{
    let mut out = chars_of(UNTITLED_PREFIX);
    push_str(&mut out, stamp);
    string_of(out.as_slice())
}

/// What a rename request asks for, before the file system is consulted.
#[derive(Debug, Clone, PartialEq, Eq)]
pub enum RenameStep {
    /// Refused, with the message to show.
    Refused(String),
    /// The name is the note's own: nothing to do.
    Unchanged,
    /// Go ahead and rename to this (trimmed) name.
    Proceed(String),
}

/// The message for an empty new name.
pub const EMPTY_NAME_MESSAGE: &'static str = "Please enter a name.";
/// The message for renaming a generated page.
pub const NOT_RENAMABLE_MESSAGE: &'static str = "This note cannot be renamed.";

/// The outcome of asking to rename `current` to `requested`: the request is
/// trimmed; an empty name is refused; the note's own name changes nothing; a
/// generated `!page` cannot be renamed; otherwise the rename goes ahead.
pub open spec fn rename_step(requested: Seq<char>, current: Seq<char>) -> (u8, Seq<char>) {
    let name = trim(requested);
    if name.len() == 0 {
        (0, EMPTY_NAME_MESSAGE@)
    } else if name == current {
        (1, Seq::empty())
    } else if current.len() > 0 && current[0] == '!' {
        (0, NOT_RENAMABLE_MESSAGE@)
    } else {
        (2, name)
    }
}

/// The outcome of a `RenameStep` as a code and text (see `rename_step`).
pub open spec fn step_view(s: RenameStep) -> (u8, Seq<char>) {
    match s {
        RenameStep::Refused(m) => (0, m@),
        RenameStep::Unchanged => (1, Seq::empty()),
        RenameStep::Proceed(n) => (2, n@),
    }
}

/// Decide on a request to rename the open note `current` to `requested`.
pub fn check_rename(requested: &str, current: &str) -> (r: RenameStep)
    ensures
        step_view(r) == rename_step(requested@, current@),
{
    let rv = chars_of(requested);
    let name = trimmed(rv.as_slice());
    if name.len() == 0 {
        return RenameStep::Refused(EMPTY_NAME_MESSAGE.to_owned());
    }
    let cv = chars_of(current);
    if crate::text::same_chars(name.as_slice(), cv.as_slice()) {
        return RenameStep::Unchanged;
    }
    if cv.len() > 0 && cv[0] == '!' {
        return RenameStep::Refused(NOT_RENAMABLE_MESSAGE.to_owned());
    }
    RenameStep::Proceed(string_of(name.as_slice()))
}

/// The message when the new name belongs to another note already.
pub fn name_taken_message(name: &str) -> (r: String)
    ensures
        r@ == "A note named '"@ + name@ + "' already exists."@,
{
    let mut out = chars_of("A note named '");
    push_str(&mut out, name);
    push_str(&mut out, "' already exists.");
    string_of(out.as_slice())
}

/// The message when the folder for the new name could not be created.
pub fn folder_error_message(name: &str, error: &str) -> (r: String)
    ensures
        r@ == "Failed to create folder for '"@ + name@ + "': "@ + error@,
{
    let mut out = chars_of("Failed to create folder for '");
    push_str(&mut out, name);
    push_str(&mut out, "': ");
    push_str(&mut out, error);
    string_of(out.as_slice())
}

/// The message when moving the note's file failed.
pub fn move_error_message(error: &str) -> (r: String)
    ensures
        r@ == "Failed to rename note: "@ + error@,
{
    let mut out = chars_of("Failed to rename note: ");
    push_str(&mut out, error);
    string_of(out.as_slice())
}

/// What the rename dialog's input starts with: blank for a quick untitled
/// note (the user just types a name), the current name otherwise.
pub fn rename_dialog_initial(current: &str) -> (r: String)
    ensures
        r@ == if starts_with(current@, UNTITLED_PREFIX@) {
            Seq::<char>::empty()
        } else {
            current@
        },
{
    if is_untitled(current) {
        String::new()
    } else {
        current.to_owned()
    }
}

/// The dialog's Rename button is active while the input holds more than
/// whitespace.
pub fn rename_enabled(input: &str) -> (r: bool)
    ensures
        r == (trim(input@).len() > 0),
{
    let v = chars_of(input);
    !crate::text::is_blank(v.as_slice())
}

/// Where a dialog `size` long goes on one axis to be centred over its window
/// at `p`, `parent` long (halving as `i32` division does), kept on screen:
/// never before 0.
pub open spec fn centred(p: int, parent: int, size: int) -> int {
    if p + half(parent - size) > 0 {
        p + half(parent - size)
    } else {
        0
    }
}

/// The top-left corner of a dialog `width` by `height` centred over the
/// window at `(px, py)` sized `pw` by `ph`.
pub fn dialog_origin(px: i32, py: i32, pw: i32, ph: i32, width: i32, height: i32) -> (r: (i32, i32))
    requires
        i32::MIN <= pw - width <= i32::MAX,
        i32::MIN <= ph - height <= i32::MAX,
        i32::MIN <= px + half(pw - width) <= i32::MAX,
        i32::MIN <= py + half(ph - height) <= i32::MAX,
    ensures
        r.0 == centred(px as int, pw as int, width as int),
        r.1 == centred(py as int, ph as int, height as int),
{
    let x = px + (pw - width) / 2;
    let y = py + (ph - height) / 2;
    (if x > 0 {
        x
    } else {
        0
    }, if y > 0 {
        y
    } else {
        0
    })
}

// ---------------------------------------------------------------------------
// The Format menu
// ---------------------------------------------------------------------------

/// Format menu item: plain text paragraph.
pub const FORMAT_PARAGRAPH: &'static str = "Format/Text";
/// Format menu item: heading level 1.
pub const FORMAT_HEADING1: &'static str = "Format/Heading 1";
/// Format menu item: heading level 2.
pub const FORMAT_HEADING2: &'static str = "Format/Heading 2";
/// Format menu item: heading level 3.
pub const FORMAT_HEADING3: &'static str = "Format/Heading 3";
/// Format menu item: quote.
pub const FORMAT_QUOTE: &'static str = "Format/Quote";
/// Format menu item: code block.
pub const FORMAT_CODE_BLOCK: &'static str = "Format/Code Block";
/// Format menu item: numbered list.
pub const FORMAT_NUMBERED_LIST: &'static str = "Format/Numbered List";
/// Format menu item: bulleted list item.
pub const FORMAT_LIST_ITEM: &'static str = "Format/List Item";
/// Format menu item: checklist item (a separator follows it).
pub const FORMAT_CHECKLIST_ITEM: &'static str = "Format/_Checklist Item";

/// The kind of block the caret is in, as far as the Format menu cares.
#[derive(Debug, Clone, Copy, PartialEq, Eq, Structural)]
pub enum BlockKind {
    /// A plain paragraph.
    Paragraph,
    /// A heading of this level.
    Heading(u8),
    /// A code block.
    CodeBlock,
    /// A block quote.
    BlockQuote,
    /// A list item, numbered or not, with or without a checkbox.
    ListItem { ordered: bool, checkbox: bool },
    /// A table (no paragraph-style entry).
    Table,
}

/// The Format menu item that is ticked for a block: headings of levels one
/// to three, numbered lists before checklists before plain list items; none
/// for deeper headings and tables.
pub open spec fn block_label(block: BlockKind) -> Option<Seq<char>> {
    match block {
        BlockKind::Paragraph => Some(FORMAT_PARAGRAPH@),
        BlockKind::Heading(level) => if level == 1 {
            Some(FORMAT_HEADING1@)
        } else if level == 2 {
            Some(FORMAT_HEADING2@)
        } else if level == 3 {
            Some(FORMAT_HEADING3@)
        } else {
            None
        },
        BlockKind::CodeBlock => Some(FORMAT_CODE_BLOCK@),
        BlockKind::BlockQuote => Some(FORMAT_QUOTE@),
        BlockKind::ListItem { ordered, checkbox } => if ordered {
            Some(FORMAT_NUMBERED_LIST@)
        } else if checkbox {
            Some(FORMAT_CHECKLIST_ITEM@)
        } else {
            Some(FORMAT_LIST_ITEM@)
        },
        BlockKind::Table => None,
    }
}

/// The Format menu label ticked for the block the caret is in.
pub fn paragraph_label_for_block(block: BlockKind) -> (r: Option<&'static str>)
    ensures
        match r {
            Some(l) => block_label(block) == Some(l@),
            None => block_label(block) is None,
        },
{
    match block {
        BlockKind::Paragraph => Some(FORMAT_PARAGRAPH),
        BlockKind::Heading(level) => if level == 1 {
            Some(FORMAT_HEADING1)
        } else if level == 2 {
            Some(FORMAT_HEADING2)
        } else if level == 3 {
            Some(FORMAT_HEADING3)
        } else {
            None
        },
        BlockKind::CodeBlock => Some(FORMAT_CODE_BLOCK),
        BlockKind::BlockQuote => Some(FORMAT_QUOTE),
        BlockKind::ListItem { ordered, checkbox } => if ordered {
            Some(FORMAT_NUMBERED_LIST)
        } else if checkbox {
            Some(FORMAT_CHECKLIST_ITEM)
        } else {
            Some(FORMAT_LIST_ITEM)
        },
        BlockKind::Table => None,
    }
}

/// The state of the Format menu: whether its items can be used (not in a
/// read-only note, and only when an editor is there), and which paragraph
/// style is ticked.
pub fn format_menu_state(editor: Option<(Option<BlockKind>, bool)>) -> (r: (bool, Option<&'static str>))
    ensures
        match editor {
            None => r.0 == false && r.1 is None,
            Some((block, readonly)) => r.0 == !readonly && match block {
                None => r.1 is None,
                Some(b) => match r.1 {
                    Some(l) => block_label(b) == Some(l@),
                    None => block_label(b) is None,
                },
            },
        },
{
    match editor {
        None => (false, None),
        Some((block, readonly)) => {
            let label = match block {
                Some(b) => paragraph_label_for_block(b),
                None => None,
            };
            (!readonly, label)
        },
    }
}

} // verus!
