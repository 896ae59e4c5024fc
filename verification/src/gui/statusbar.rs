//! The status bar's layout and what its left half shows.
//!
//! The bar holds the note name (left half), the save status (right half) and a
//! small sync indicator at the right end. Drawing is the toolkit's business;
//! where the parts go and which text the left half shows are decided here.
use vstd::prelude::*;

verus! {

/// Side of the square sync indicator at the right end of the bar.
pub const SYNC_INDICATOR_SIZE: i32 = 14;
/// Gap between the save status text and the sync indicator.
pub const SYNC_GAP: i32 = 6;
/// Horizontal padding at both ends of the bar.
pub const PADDING: i32 = 5;
/// Milliseconds for one full turn of the syncing spinner.
pub const SPINNER_PERIOD_MS: u64 = 1200;

/// What the sync indicator shows.
#[derive(Debug, Clone, Copy, PartialEq, Eq, Structural)]
pub enum SyncIndicator {
    /// Nothing drawn.
    Idle,
    /// A rotating arc: a sync is in progress.
    Syncing,
    /// A warning badge: the last sync failed (details in the tooltip).
    Error,
}

/// Positions of the three parts of a bar.
#[derive(Debug, Clone, Copy)]
pub struct Layout {
    /// Note button (left half): x and width; it spans the bar's full height.
    pub note: (i32, i32),
    /// Save status (right half minus the indicator): x and width.
    pub save: (i32, i32),
    /// Sync indicator (right end): x, y and side length.
    pub indicator: (i32, i32, i32),
}

/// The x of the sync indicator for a bar at `x` that is `w` wide.
pub open spec fn indicator_x(x: int, w: int) -> int {
    x + w - PADDING - SYNC_INDICATOR_SIZE
}

/// Half of `a`, rounded toward zero as `i32` division does.
pub open spec fn half(a: int) -> int {
    if a >= 0 {
        a / 2
    } else {
        -((-a) / 2)
    }
}

/// The x where the save status starts.
pub open spec fn save_x(x: int, w: int) -> int {
    x + PADDING + half(w)
}

/// Where the parts of a bar at `(x, y)`, `w` wide and `h` high, go: the note
/// name fills the left half inside the padding, the indicator sits at the
/// right padding, vertically centred, and the save status runs from the
/// middle up to a gap before the indicator (at least 10 wide).
pub open spec fn layout_of(x: int, y: int, w: int, h: int) -> (int, int, int, int, int, int, int) {
    let ix = indicator_x(x, w);
    let sx = save_x(x, w);
    let sw = if ix - SYNC_GAP - sx > 10 {
        ix - SYNC_GAP - sx
    } else {
        10
    };
    (
        x + PADDING,
        half(w) - 2 * PADDING,
        sx,
        sw,
        ix,
        y + half(h - SYNC_INDICATOR_SIZE),
        SYNC_INDICATOR_SIZE as int,
    )
}

/// Every coordinate the layout computes fits in an `i32`.
pub open spec fn layout_fits(x: int, y: int, w: int, h: int) -> bool {
    let i32_range = |v: int| i32::MIN <= v <= i32::MAX;
    &&& i32_range(x + w)
    &&& i32_range(x + w - PADDING)
    &&& i32_range(x + w - PADDING - SYNC_INDICATOR_SIZE)
    &&& i32_range(h - SYNC_INDICATOR_SIZE)
    &&& i32_range(y + half(h - SYNC_INDICATOR_SIZE))
    &&& i32_range(x + PADDING)
    &&& i32_range(x + PADDING + half(w))
    &&& i32_range(half(w) - 2 * PADDING)
}

/// Lay out a bar at `(x, y)`, `w` wide and `h` high (see `layout_of`).
pub fn layout(x: i32, y: i32, w: i32, h: i32) -> (r: Layout)
    requires
        layout_fits(x as int, y as int, w as int, h as int),
    ensures
        (r.note.0 as int, r.note.1 as int, r.save.0 as int, r.save.1 as int, r.indicator.0 as int, r.indicator.1 as int, r.indicator.2 as int)
            == layout_of(x as int, y as int, w as int, h as int),
{
    let ind_x = x + w - PADDING - SYNC_INDICATOR_SIZE;
    let ind_y = y + (h - SYNC_INDICATOR_SIZE) / 2;
    let save_x = x + PADDING + w / 2;
    let gap_w = ind_x as i64 - SYNC_GAP as i64 - save_x as i64;
    let save_w: i32 = if gap_w > 10 {
        gap_w as i32
    } else {
        10
    };
    Layout {
        note: (x + PADDING, w / 2 - 2 * PADDING),
        save: (save_x, save_w),
        indicator: (ind_x, ind_y, SYNC_INDICATOR_SIZE),
    }
}

/// The start angle, in degrees, of the syncing spinner's arc `ms` milliseconds
/// after start: one clockwise turn per period (the toolkit's angles grow
/// counter-clockwise).
pub open spec fn spinner_angle_at(ms: nat) -> int {
    360 - (ms % (SPINNER_PERIOD_MS as nat)) * 360 / (SPINNER_PERIOD_MS as nat)
}

/// The spinner's start angle at `ms_since_start`.
pub fn spinner_angle(ms_since_start: u64) -> (r: i32)
    ensures
        r as int == spinner_angle_at(ms_since_start as nat),
        1 <= r <= 360,
{
    let phase = ms_since_start % SPINNER_PERIOD_MS;
    assert(phase * 360 / 1200 < 360) by (nonlinear_arith)
        requires
            phase < 1200,
    ;
    let turned = (phase * 360 / SPINNER_PERIOD_MS) as i32;
    360 - turned
}

/// What the left half of the status bar shows: the note on screen, or, while a
/// link is hovered (by the mouse or by the caret inside it), that link's
/// destination.
///
/// Both are kept as data rather than read back off the widget, because they
/// change from independent events: a click on a hovered link navigates while
/// the hover that started it is still active.
#[derive(Debug, Clone, PartialEq, Eq)]
pub struct NoteLabel {
    /// Name of the note currently on screen (already formatted for display).
    pub note: String,
    /// Destination of the hovered link, if any; takes precedence while set.
    pub hover: Option<String>,
}

/// The text a label showing `v` (note, hovered destination) puts on screen.
pub open spec fn shown(v: (Seq<char>, Option<Seq<char>>)) -> Seq<char> {
    match v.1 {
        Some(h) => h,
        None => v.0,
    }
}

/// A label after navigating to `note`.
pub open spec fn with_note(v: (Seq<char>, Option<Seq<char>>), note: Seq<char>) -> (
    Seq<char>,
    Option<Seq<char>>,
) {
    (note, None)
}

/// A label after a hover starts (`Some`) or ends (`None`).
pub open spec fn with_hover(v: (Seq<char>, Option<Seq<char>>), hover: Option<Seq<char>>) -> (
    Seq<char>,
    Option<Seq<char>>,
) {
    (v.0, hover)
}

impl View for NoteLabel {
    type V = (Seq<char>, Option<Seq<char>>);

    open spec fn view(&self) -> (Seq<char>, Option<Seq<char>>) {
        (
            self.note@,
            match self.hover {
                Some(h) => Some(h@),
                None => None,
            },
        )
    }
}

impl NoteLabel {
    /// An empty label.
    pub fn new() -> (r: Self)
        ensures
            r@ == (Seq::<char>::empty(), None::<Seq<char>>),
    {
        NoteLabel { note: String::new(), hover: None }
    }

    /// Navigation is authoritative: it sets the new note name and drops any
    /// hover, which belongs to the content that was just replaced.
    pub fn set_note(&mut self, note: &str)
        ensures
            final(self)@ == with_note(old(self)@, note@),
    {
        self.note = note.to_owned();
        self.hover = None;
    }

    /// Show a hovered link's destination, or `None` when the hover ends.
    pub fn set_hover(&mut self, target: Option<&str>)
        ensures
            final(self)@ == with_hover(
                old(self)@,
                match target {
                    Some(t) => Some(t@),
                    None => None::<Seq<char>>,
                },
            ),
    {
        self.hover = match target {
            Some(t) => Some(t.to_owned()),
            None => None,
        };
    }

    /// The text on screen: the hovered destination if any, else the note.
    pub fn displayed(&self) -> (r: &str)
        ensures
            r@ == shown(self@),
    {
        match &self.hover {
            Some(h) => h.as_str(),
            None => self.note.as_str(),
        }
    }
}

impl Default for NoteLabel {
    fn default() -> (r: Self)
        ensures
            r@ == (Seq::<char>::empty(), None::<Seq<char>>),
    {
        NoteLabel::new()
    }
}

/// A hover overlays the note name and, when it ends, the label falls back to
/// the note on screen.
pub proof fn hover_overlays_then_falls_back(v: (Seq<char>, Option<Seq<char>>), target: Seq<char>)
    ensures
        shown(with_hover(v, Some(target))) == target,
        shown(with_hover(with_hover(v, Some(target)), None)) == v.0,
{
}

/// Navigating while a link is hovered shows the new note, and a hover that
/// ends afterwards does not bring back the note navigated away from.
pub proof fn navigation_leaves_no_stale_note(
    v: (Seq<char>, Option<Seq<char>>),
    target: Seq<char>,
    note: Seq<char>,
)
    ensures
        shown(with_note(with_hover(v, Some(target)), note)) == note,
        shown(with_hover(with_note(with_hover(v, Some(target)), note), None)) == note,
{
}

} // verus!
