//! The "ON AIR" bar shown while a note is shared live: its blinking light and
//! where its parts go.
use vstd::prelude::*;

verus! {

/// Height of the bar.
pub const HEIGHT: i32 = 30;
/// Width of the Stop button.
pub const STOP_WIDTH: i32 = 70;
/// Width of the "ON AIR" label.
pub const LABEL_WIDTH: i32 = 60;
/// Diameter of the blinking light.
pub const LIGHT_DIAMETER: i32 = 12;
/// Padding at the bar's ends.
pub const PADDING: i32 = 8;
/// Gap between parts.
pub const GAP: i32 = 6;
/// Milliseconds the light keeps one colour.
pub const BLINK_MS: u64 = 500;

/// The light is yellow in even half-second periods since start, red in odd.
pub fn light_is_yellow(ms_since_start: u64) -> (r: bool)
    ensures
        r == ((ms_since_start / BLINK_MS) % 2 == 0),
{
    (ms_since_start / BLINK_MS) % 2 == 0
}

/// Positions of the bar's parts.
#[derive(Debug, Clone, Copy)]
pub struct OnAirLayout {
    /// The light: x, y and diameter.
    pub light: (i32, i32, i32),
    /// The label's x.
    pub label_x: i32,
    /// The link: x and width.
    pub link: (i32, i32),
    /// The Stop button: x, y, width and height.
    pub stop: (i32, i32, i32, i32),
}

/// The link's x for a bar at `x`.
pub open spec fn link_x(x: int) -> int {
    x + PADDING + LIGHT_DIAMETER + GAP + LABEL_WIDTH + GAP
}

/// The link's width for a bar at `x`, `w` wide: what lies between the label
/// and the Stop button, but at least 50.
pub open spec fn link_width(x: int, w: int) -> int {
    let rest = x + w - STOP_WIDTH - PADDING - GAP - link_x(x);
    if rest > 50 {
        rest
    } else {
        50
    }
}

/// Lay out the bar at `(x, y)`, `w` wide: light, label and link from the left,
/// the Stop button at the right end.
pub fn layout(x: i32, y: i32, w: i32) -> (r: OnAirLayout)
    requires
        i32::MIN <= x + w - STOP_WIDTH - PADDING - GAP - 100,
        i32::MIN <= x + w - STOP_WIDTH - PADDING - GAP - link_x(x as int),
        x + w <= i32::MAX,
        x + 100 <= i32::MAX,
        y + HEIGHT <= i32::MAX,
        i32::MIN <= x,
    ensures
        r.light.0 == x + PADDING,
        r.light.1 == y + (HEIGHT - LIGHT_DIAMETER) / 2,
        r.light.2 == LIGHT_DIAMETER,
        r.label_x == x + PADDING + LIGHT_DIAMETER + GAP,
        r.link.0 == link_x(x as int),
        r.link.1 == link_width(x as int, w as int),
        r.stop.0 == x + w - STOP_WIDTH - PADDING,
        r.stop.1 == y + 4,
        r.stop.2 == STOP_WIDTH,
        r.stop.3 == HEIGHT - 8,
{
    let label_x = x + PADDING + LIGHT_DIAMETER + GAP;
    let lx = label_x + LABEL_WIDTH + GAP;
    let rest = x + w - STOP_WIDTH - PADDING - GAP - lx;
    let link_w = if rest > 50 {
        rest
    } else {
        50
    };
    OnAirLayout {
        light: (x + PADDING, y + (HEIGHT - LIGHT_DIAMETER) / 2, LIGHT_DIAMETER),
        label_x,
        link: (lx, link_w),
        stop: (x + w - STOP_WIDTH - PADDING, y + 4, STOP_WIDTH, HEIGHT - 8),
    }
}

} // verus!
