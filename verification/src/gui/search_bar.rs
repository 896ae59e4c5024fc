//! The in-note search bar: where its parts go and the match count it shows.
use vstd::prelude::*;
use crate::text::{chars_of, decimal, decimal_of, decimal_u128, push_all, push_str, string_of};

verus! {

/// Height of the search bar.
pub const BAR_HEIGHT: i32 = 36;
/// Width of each of the three buttons (previous, next, close).
pub const BUTTON_WIDTH: i32 = 30;
/// Width of the match count label.
pub const COUNT_WIDTH: i32 = 70;
/// The search input never gets narrower than this.
pub const INPUT_MIN_WIDTH: i32 = 150;
/// Space between the parts and around the bar's edge.
pub const BAR_PADDING: i32 = 4;

/// The match count label: "No matches" when there are none, "k/n" when the
/// k-th of n matches (counting from one) is current, else "n matches".
pub open spec fn match_count_label(current: Option<nat>, total: nat) -> Seq<char> {
    if total == 0 {
        "No matches"@
    } else {
        match current {
            Some(c) => decimal(c + 1) + seq!['/'] + decimal(total),
            None => decimal(total) + " matches"@,
        }
    }
}

/// The text of the match count label for the current match (0-based) among
/// `total` matches.
pub fn match_count_text(current: Option<usize>, total: usize) -> (r: String)
    ensures
        r@ == match_count_label(
            match current {
                Some(c) => Some(c as nat),
                None => None,
            },
            total as nat,
        ),
{
    if total == 0 {
        return "No matches".to_owned();
    }
    match current {
        Some(curr) => {
            let mut out = decimal_u128(curr as u128 + 1);
            out.push('/');
            let t = decimal_of(total);
            push_all(&mut out, t.as_slice());
            string_of(out.as_slice())
        },
        None => {
            let mut out = decimal_of(total);
            push_str(&mut out, " matches");
            string_of(out.as_slice())
        },
    }
}

/// Positions of the search bar's parts.
#[derive(Debug, Clone, Copy)]
pub struct SearchBarLayout {
    /// The input: x, y, width, height.
    pub input: (i32, i32, i32, i32),
    /// The close button's x.
    pub close_x: i32,
    /// The next-match button's x.
    pub next_x: i32,
    /// The previous-match button's x.
    pub prev_x: i32,
    /// The match count label's x.
    pub count_x: i32,
    /// The top of every part.
    pub top: i32,
    /// The height of every part.
    pub part_height: i32,
}

/// Width of the fixed right-hand part: three buttons, the count, and padding.
pub open spec fn right_section_width() -> int {
    3 * BUTTON_WIDTH + COUNT_WIDTH + 4 * BAR_PADDING
}

/// The input's width for a bar `w` wide: what the right-hand part leaves, but
/// at least `INPUT_MIN_WIDTH`.
pub open spec fn input_width(w: int) -> int {
    let rest = w - right_section_width() - BAR_PADDING;
    if rest > INPUT_MIN_WIDTH {
        rest
    } else {
        INPUT_MIN_WIDTH as int
    }
}

/// Every coordinate the layout computes fits in an `i32`.
pub open spec fn search_layout_fits(x: int, y: int, w: int) -> bool {
    &&& i32::MIN <= x + w - 180 && x + w <= i32::MAX
    &&& i32::MIN <= x && x + BAR_PADDING <= i32::MAX
    &&& y + 4 <= i32::MAX
    &&& i32::MIN <= w - right_section_width() - BAR_PADDING
    &&& i32::MIN <= x + w - BAR_PADDING - BUTTON_WIDTH - 2 * (BUTTON_WIDTH + BAR_PADDING) - (COUNT_WIDTH + BAR_PADDING)
}

/// Lay out a search bar at `(x, y)`, `w` wide: the input on the left, then,
/// from the right edge inwards, close, next, previous and the match count.
pub fn layout(x: i32, y: i32, w: i32) -> (r: SearchBarLayout)
    requires
        search_layout_fits(x as int, y as int, w as int),
    ensures
        r.top == y + 4,
        r.part_height == BAR_HEIGHT - 8,
        r.input.0 == x + BAR_PADDING,
        r.input.1 == y + 4,
        r.input.2 == input_width(w as int),
        r.input.3 == BAR_HEIGHT - 8,
        r.close_x == x + w - BAR_PADDING - BUTTON_WIDTH,
        r.next_x == r.close_x - (BUTTON_WIDTH + BAR_PADDING),
        r.prev_x == r.next_x - (BUTTON_WIDTH + BAR_PADDING),
        r.count_x == r.prev_x - (COUNT_WIDTH + BAR_PADDING),
{
    let right_section_width = 3 * BUTTON_WIDTH + COUNT_WIDTH + 4 * BAR_PADDING;
    let top = y + 4;
    let rest = w - right_section_width - BAR_PADDING;
    let input_width = if rest > INPUT_MIN_WIDTH {
        rest
    } else {
        INPUT_MIN_WIDTH
    };
    let close_x = x + w - BAR_PADDING - BUTTON_WIDTH;
    let next_x = close_x - (BUTTON_WIDTH + BAR_PADDING);
    let prev_x = next_x - (BUTTON_WIDTH + BAR_PADDING);
    let count_x = prev_x - (COUNT_WIDTH + BAR_PADDING);
    SearchBarLayout {
        input: (x + BAR_PADDING, top, input_width, BAR_HEIGHT - 8),
        close_x,
        next_x,
        prev_x,
        count_x,
        top,
        part_height: BAR_HEIGHT - 8,
    }
}

} // verus!
