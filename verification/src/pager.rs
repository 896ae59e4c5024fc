//! The terminal pager of the command-line program: scrolling state, key
//! handling, what part of the text is shown and the status line.
//!
//! Drawing and reading keys is the program's; it hands the keys over as
//! `PagerKey` values.
use vstd::prelude::*;
use crate::text::{chars_of, decimal, decimal_of, push_all, string_of};

verus! {

/// Scrolling state of the pager.
pub struct PagerState {
    /// Current vertical scroll offset.
    pub scroll_offset: usize,
    /// Total number of lines in the content.
    pub total_lines: usize,
    /// Height of the viewport.
    pub viewport_height: usize,
}

/// The keys the pager reacts to.
#[derive(Clone, Copy, PartialEq, Eq, Structural, Debug)]
pub enum PagerKey {
    /// `q` or Escape.
    Quit,
    /// Down arrow or `j`.
    Down,
    /// Up arrow or `k`.
    Up,
    /// Page Down or space.
    PageDown,
    PageUp,
    /// Home or `g`.
    Home,
    /// End or `G`.
    End,
    /// Anything else.
    Other,
}

/// The largest useful scroll offset: the last viewport-full of lines.
pub open spec fn max_scroll_of(total: usize, height: usize) -> usize {
    if total > height {
        (total - height) as usize
    } else {
        0
    }
}

impl PagerState {
    pub fn new(total_lines: usize, viewport_height: usize) -> (r: Self)
        ensures
            r.scroll_offset == 0,
            r.total_lines == total_lines,
            r.viewport_height == viewport_height,
    {
        PagerState { scroll_offset: 0, total_lines, viewport_height }
    }

    /// Maximum valid scroll offset.
    pub fn max_scroll(&self) -> (r: usize)
        ensures
            r == max_scroll_of(self.total_lines, self.viewport_height),
    {
        self.total_lines.saturating_sub(self.viewport_height)
    }

    /// Scroll down by one line, unless at the end.
    pub fn scroll_down(&mut self)
        ensures
            final(self).scroll_offset == if old(self).scroll_offset < max_scroll_of(
                old(self).total_lines,
                old(self).viewport_height,
            ) {
                (old(self).scroll_offset + 1) as usize
            } else {
                old(self).scroll_offset
            },
            final(self).total_lines == old(self).total_lines,
            final(self).viewport_height == old(self).viewport_height,
    {
        if self.scroll_offset < self.max_scroll() {
            self.scroll_offset += 1;
        }
    }

    /// Scroll up by one line, unless at the start.
    pub fn scroll_up(&mut self)
        ensures
            final(self).scroll_offset == if old(self).scroll_offset > 0 {
                (old(self).scroll_offset - 1) as usize
            } else {
                0
            },
            final(self).total_lines == old(self).total_lines,
            final(self).viewport_height == old(self).viewport_height,
    {
        if self.scroll_offset > 0 {
            self.scroll_offset -= 1;
        }
    }

    /// Scroll down by a viewport, stopping at the end.
    pub fn page_down(&mut self)
        requires
            old(self).scroll_offset + old(self).viewport_height <= usize::MAX,
        ensures
            final(self).scroll_offset as int == if old(self).scroll_offset
                + old(self).viewport_height < max_scroll_of(
                old(self).total_lines,
                old(self).viewport_height,
            ) {
                old(self).scroll_offset + old(self).viewport_height
            } else {
                max_scroll_of(old(self).total_lines, old(self).viewport_height) as int
            },
            final(self).total_lines == old(self).total_lines,
            final(self).viewport_height == old(self).viewport_height,
    {
        let max_scroll = self.max_scroll();
        let target = self.scroll_offset + self.viewport_height;
        self.scroll_offset = if target < max_scroll {
            target
        } else {
            max_scroll
        };
    }

    /// Scroll up by a viewport, stopping at the start.
    pub fn page_up(&mut self)
        ensures
            final(self).scroll_offset == if old(self).scroll_offset > old(self).viewport_height {
                (old(self).scroll_offset - old(self).viewport_height) as usize
            } else {
                0
            },
            final(self).total_lines == old(self).total_lines,
            final(self).viewport_height == old(self).viewport_height,
    {
        self.scroll_offset = self.scroll_offset.saturating_sub(self.viewport_height);
    }

    pub fn jump_to_start(&mut self)
        ensures
            final(self).scroll_offset == 0,
            final(self).total_lines == old(self).total_lines,
            final(self).viewport_height == old(self).viewport_height,
    {
        self.scroll_offset = 0;
    }

    pub fn jump_to_end(&mut self)
        ensures
            final(self).scroll_offset == max_scroll_of(
                old(self).total_lines,
                old(self).viewport_height,
            ),
            final(self).total_lines == old(self).total_lines,
            final(self).viewport_height == old(self).viewport_height,
    {
        self.scroll_offset = self.max_scroll();
    }

    /// React to a key; `false` when the pager is to close.
    pub fn handle_key(&mut self, key: PagerKey) -> (keep_running: bool)
        requires
            old(self).scroll_offset + old(self).viewport_height <= usize::MAX,
        ensures
            keep_running == (key != PagerKey::Quit),
            final(self).total_lines == old(self).total_lines,
            final(self).viewport_height == old(self).viewport_height,
            final(self).scroll_offset <= if old(self).scroll_offset > max_scroll_of(
                old(self).total_lines,
                old(self).viewport_height,
            ) {
                old(self).scroll_offset
            } else {
                max_scroll_of(old(self).total_lines, old(self).viewport_height)
            },
            key == PagerKey::Home ==> final(self).scroll_offset == 0,
            key == PagerKey::End ==> final(self).scroll_offset == max_scroll_of(
                old(self).total_lines,
                old(self).viewport_height,
            ),
            (key == PagerKey::Quit || key == PagerKey::Other) ==> final(self).scroll_offset == old(
                self,
            ).scroll_offset,
    {
        match key {
            PagerKey::Quit => return false,
            PagerKey::Down => self.scroll_down(),
            PagerKey::Up => self.scroll_up(),
            PagerKey::PageDown => self.page_down(),
            PagerKey::PageUp => self.page_up(),
            PagerKey::Home => self.jump_to_start(),
            PagerKey::End => self.jump_to_end(),
            PagerKey::Other => {},
        }
        true
    }

    /// The lines shown: from the scroll offset, at most a viewport's worth.
    pub fn visible_range(&self) -> (r: (usize, usize))
        ensures
            r.0 == (if self.scroll_offset < self.total_lines {
                self.scroll_offset
            } else {
                self.total_lines
            }),
            r.1 as int == (if self.total_lines - r.0 < self.viewport_height {
                self.total_lines as int
            } else {
                r.0 + self.viewport_height
            }),
    {
        let start = if self.scroll_offset < self.total_lines {
            self.scroll_offset
        } else {
            self.total_lines
        };
        let end = if self.total_lines - start < self.viewport_height {
            self.total_lines
        } else {
            start + self.viewport_height
        };
        (start, end)
    }

    /// The status bar text: ` Line <offset+1>/<total> (<percent>%)`, or
    /// ` (empty)` for no content.
    pub fn status_text(&self) -> (r: String)
        requires
            self.scroll_offset < usize::MAX / 100,
        ensures
            r@ == status_of(self.scroll_offset, self.total_lines, self.viewport_height),
    {
        if self.total_lines == 0 {
            return string_of(chars_of(" (empty)").as_slice());
        }
        let percentage: usize = if self.total_lines <= self.viewport_height {
            100
        } else {
            (self.scroll_offset * 100) / self.max_scroll()
        };
        let mut out = chars_of(" Line ");
        let a = decimal_of(self.scroll_offset + 1);
        push_all(&mut out, a.as_slice());
        out.push('/');
        let b = decimal_of(self.total_lines);
        push_all(&mut out, b.as_slice());
        out.push(' ');
        out.push('(');
        let c = decimal_of(percentage);
        push_all(&mut out, c.as_slice());
        out.push('%');
        out.push(')');
        string_of(out.as_slice())
    }
}

/// How far through the content the view is, in percent.
pub open spec fn percent_of(offset: usize, total: usize, height: usize) -> nat {
    if total <= height {
        100
    } else {
        ((offset * 100) as int / max_scroll_of(total, height) as int) as nat
    }
}

/// The status bar text.
pub open spec fn status_of(offset: usize, total: usize, height: usize) -> Seq<char> {
    if total == 0 {
        " (empty)"@
    } else {
        " Line "@ + decimal((offset + 1) as nat) + seq!['/'] + decimal(total as nat) + seq![' ', '(']
            + decimal(percent_of(offset, total, height)) + seq!['%', ')']
    }
}

/// Whether output goes through the interactive pager: only on a terminal
/// whose height is known, when the lines do not fit (three rows go to the
/// border and the status bar).
pub fn should_page(interactive: bool, terminal_height: Option<u16>, line_count: usize) -> (r: bool)
    ensures
        r == (interactive && (terminal_height matches Some(h) && line_count > (if h > 3 {
            h - 3
        } else {
            0
        }))),
{
    if !interactive {
        return false;
    }
    match terminal_height {
        Some(h) => {
            let viewport_height = (h as usize).saturating_sub(3);
            line_count > viewport_height
        },
        None => false,
    }
}

/// Moving never takes the view past the last viewport-full of lines unless
/// it already was past it.
pub proof fn movement_stays_in_range(offset: usize, total: usize, height: usize)
    ensures
        max_scroll_of(total, height) <= total,
        offset <= max_scroll_of(total, height) ==> (if offset < max_scroll_of(total, height) {
            offset + 1
        } else {
            offset as int
        }) <= max_scroll_of(total, height),
{
}

/// Paging up and then down again from inside the content returns to where
/// the view was.
pub proof fn page_up_then_down_returns(offset: usize, total: usize, height: usize)
    requires
        height <= offset <= max_scroll_of(total, height),
    ensures
        ({
            let up = (offset - height) as usize;
            let down = if up + height < max_scroll_of(total, height) {
                up + height
            } else {
                max_scroll_of(total, height) as int
            };
            down == offset
        }),
{
}

} // verus!
