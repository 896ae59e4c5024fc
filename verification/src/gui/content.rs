//! Access to an editor's content, so features such as autosave and loading
//! work with any editor or display.
use vstd::prelude::*;

verus! {

/// Read access to the current content as Markdown, suitable for saving.
pub trait ContentProvider {
    fn get_content(&self) -> String;
}

/// Loading Markdown content into an editor or display.
pub trait ContentLoader {
    fn set_content_from_markdown(&mut self, markdown: &str);
}

} // verus!
