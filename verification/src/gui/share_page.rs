//! The web view's page: the stylesheet and scripts it embeds, the page shell
//! around a note's HTML, and the note's HTML assembled from its rendered
//! blocks with sections, highlights and heading anchors.
use vstd::prelude::*;
use crate::gui::live_share::{
    html_escape_text, inject_heading_ids, json_string, mark_block_root, mark_lis, marked_lis,
    li_open, marked_root, text_escaped, json_body, with_ids, HighlightTarget,
};
use crate::text::{
    chars_of, contains, first_occurrence, is_first_occurrence, occurs_at, push_all, push_str,
    string_of, string_views,
};

verus! {

/// The version shown in the page footer.
pub const VERSION: &'static str = "0.1.0";

/// Polls the version endpoint and swaps in fresh content when it changes,
/// preserving scroll position. Surfaces a banner when the server goes away.
pub const RELOAD_SCRIPT: &'static str = r#"(function () {
  var pathNote = decodeURIComponent(location.pathname.replace(/^\//, ""));
  var version = window.__pikiInitialVersion;
  var statusEl = document.getElementById("piki-status");
  function poll() {
    fetch("/__piki/version?note=" + encodeURIComponent(pathNote))
      .then(function (r) { if (!r.ok) throw new Error("bad"); return r.text(); })
      .then(function (v) {
        if (statusEl) statusEl.hidden = true;
        if (v === version) return;
        version = v;
        return fetch(location.pathname + "?raw=1")
          .then(function (r) { return r.text(); })
          .then(function (html) {
            var doc = document.getElementById("piki-doc");
            if (doc) {
              doc.innerHTML = html;
              // Bring the spotlighted paragraph/item into view for the audience.
              // `nearest` leaves it alone when already visible, so ordinary edits
              // don't yank the page around.
              var active = doc.querySelector(".piki-active");
              if (active) active.scrollIntoView({ block: "nearest" });
            }
          });
      })
      .catch(function () { if (statusEl) statusEl.hidden = false; });
  }
  setInterval(poll, 1000);
  poll();
})();"#;

/// Wires the footer's 1-col / 2-col toggle: applies the saved preference on
/// load, reflects the active choice, and persists changes. The layout itself is
/// driven by the `cols-2` class on `<body>` (see the stylesheet), which survives
/// live-reload content swaps because only `#piki-doc` is replaced.
pub const COLUMN_SCRIPT: &'static str = r#"(function () {
  function apply(n) {
    document.body.classList.toggle("cols-2", n === 2);
    try { localStorage.setItem("pikiCols", String(n)); } catch (e) {}
    var links = document.querySelectorAll(".piki-col");
    for (var i = 0; i < links.length; i++) {
      links[i].classList.toggle("active", links[i].getAttribute("data-cols") === String(n));
    }
  }
  var saved = 1;
  try { if (localStorage.getItem("pikiCols") === "2") saved = 2; } catch (e) {}
  apply(saved);
  var links = document.querySelectorAll(".piki-col");
  for (var i = 0; i < links.length; i++) {
    links[i].addEventListener("click", function (e) {
      e.preventDefault();
      apply(parseInt(this.getAttribute("data-cols"), 10));
    });
  }
})();"#;

/// The footer's interactive controls: a wide/compact line-spacing toggle (two
/// stacked-line icons) followed by a one/two column toggle. The two mirror each
/// other — each is a set of `<a>` links carrying a `data-*` value, with the
/// current choice marked `active`; the scripts below drive them and persist the
/// choice. Kept as one raw string literal so the inline SVG icons need no
/// escaping; the newlines between elements collapse to a single space in HTML.
pub const FOOTER_CONTROLS: &'static str = r##" &bull;
<a href="#" class="piki-spacing active" data-spacing="wide" title="Wide line spacing" aria-label="Wide line spacing"><svg viewBox="0 0 16 16" width="15" height="15" fill="none" stroke="currentColor" stroke-width="1.6" stroke-linecap="round"><line x1="2.5" y1="4" x2="13.5" y2="4"/><line x1="2.5" y1="12" x2="13.5" y2="12"/></svg></a>
<a href="#" class="piki-spacing" data-spacing="compact" title="Compact line spacing" aria-label="Compact line spacing"><svg viewBox="0 0 16 16" width="15" height="15" fill="none" stroke="currentColor" stroke-width="1.6" stroke-linecap="round"><line x1="2.5" y1="6" x2="13.5" y2="6"/><line x1="2.5" y1="10" x2="13.5" y2="10"/></svg></a>
&bull;
<a href="#" class="piki-col active" data-cols="1">1 col</a>
<a href="#" class="piki-col" data-cols="2">2 cols</a>"##;

/// Wires the footer's wide/compact line-spacing toggle, mirroring
/// `COLUMN_SCRIPT`: applies the saved preference on load, reflects the active
/// choice, and persists changes. The density is driven by the `compact` class on
/// `<body>` (see the stylesheet), which survives live-reload content swaps
/// because only `#piki-doc` is replaced.
pub const SPACING_SCRIPT: &'static str = r#"(function () {
  function apply(mode) {
    document.body.classList.toggle("compact", mode === "compact");
    try { localStorage.setItem("pikiSpacing", mode); } catch (e) {}
    var links = document.querySelectorAll(".piki-spacing");
    for (var i = 0; i < links.length; i++) {
      links[i].classList.toggle("active", links[i].getAttribute("data-spacing") === mode);
    }
  }
  var saved = "wide";
  try { if (localStorage.getItem("pikiSpacing") === "compact") saved = "compact"; } catch (e) {}
  apply(saved);
  var links = document.querySelectorAll(".piki-spacing");
  for (var i = 0; i < links.length; i++) {
    links[i].addEventListener("click", function (e) {
      e.preventDefault();
      apply(this.getAttribute("data-spacing"));
    });
  }
})();"#;

/// Auto-hides the footer so it stays out of the way: it fades to fully
/// transparent (and click-through, via the `piki-faded` class — see the
/// stylesheet) about 3s after the page loads and about 3s after the pointer
/// last left its corner. Any pointer movement near that corner — or keyboard
/// focus landing on a toggle — rouses it again and restarts the timer, so it is
/// there whenever you reach for it and gone the rest of the time.
pub const FOOTER_FADE_SCRIPT: &'static str = r#"(function () {
  var footer = document.getElementById("piki-footer");
  if (!footer) return;
  var timer = null;
  function fade() { footer.classList.add("piki-faded"); }
  function wake() {
    footer.classList.remove("piki-faded");
    if (timer) clearTimeout(timer);
    timer = setTimeout(fade, 3000);
  }
  function nearCorner(x, y) {
    var r = footer.getBoundingClientRect();
    return x >= r.left - 40 && y >= r.top - 40;
  }
  document.addEventListener("mousemove", function (e) {
    if (nearCorner(e.clientX, e.clientY)) wake();
  });
  document.addEventListener("touchstart", function (e) {
    var t = e.touches[0];
    if (t && nearCorner(t.clientX, t.clientY)) wake();
  }, { passive: true });
  footer.addEventListener("focusin", wake);
  // Visible on load, then fade after ~3s.
  wake();
})();"#;

/// Self-contained stylesheet, modeled on VS Code's Markdown preview (the look
/// of tdoc's own `html::write_document`), with automatic dark mode. The
/// first-child rule is scoped to `#piki-doc` because the content lives in that
/// wrapper rather than directly under `<body>`.
pub const STYLESHEET: &'static str = r##"
:root { color-scheme: light dark; }

body {
  font-family: -apple-system, BlinkMacSystemFont, "Segoe WPC", "Segoe UI",
    system-ui, "Ubuntu", "Droid Sans", sans-serif;
  font-size: 14px;
  line-height: 1.6;
  color: #1f2328;
  background-color: #ffffff;
  max-width: 760px;
  margin: 0 auto;
  padding: 24px 26px 48px;
  word-wrap: break-word;
}

a { color: #0969da; text-decoration: none; }
a:hover { text-decoration: underline; }

h1, h2, h3, h4, h5, h6 {
  margin-top: 24px;
  margin-bottom: 16px;
  font-weight: 600;
  line-height: 1.25;
}
h1 { font-size: 2em; padding-bottom: 0.3em; border-bottom: 1px solid #d8dee4; }
h2 { font-size: 1.5em; padding-bottom: 0.3em; border-bottom: 1px solid #d8dee4; }
h3 { font-size: 1.25em; }

#piki-doc > :first-child,
#piki-doc > .piki-sec:first-child > :first-child { margin-top: 0; }

p { margin-top: 0; margin-bottom: 16px; }

ul, ol { margin-top: 0; margin-bottom: 16px; padding-left: 2em; }
li + li { margin-top: 0.25em; }
li > ul, li > ol { margin-top: 0.25em; margin-bottom: 0; }
li:has(> input[type="checkbox"]) { list-style: none; }
li > input[type="checkbox"] { margin: 0 0.4em 0 -1.4em; vertical-align: middle; }

blockquote {
  margin: 0 0 16px 0;
  padding: 0 1em;
  color: #656d76;
  border-left: 0.25em solid #d0d7de;
}
blockquote > :first-child { margin-top: 0; }
blockquote > :last-child { margin-bottom: 0; }

code, tt {
  font-family: ui-monospace, SFMono-Regular, "SF Mono", Menlo, Consolas,
    "Liberation Mono", monospace;
  font-size: 0.9em;
  padding: 0.2em 0.4em;
  background-color: rgba(175, 184, 193, 0.2);
  border-radius: 6px;
}

pre {
  margin-top: 0;
  margin-bottom: 16px;
  padding: 16px;
  overflow: auto;
  font-family: ui-monospace, SFMono-Regular, "SF Mono", Menlo, Consolas,
    "Liberation Mono", monospace;
  font-size: 0.9em;
  line-height: 1.45;
  background-color: #f6f8fa;
  border-radius: 6px;
}
pre code, pre tt {
  padding: 0;
  font-size: inherit;
  background-color: transparent;
  border-radius: 0;
}

table {
  margin-top: 0;
  margin-bottom: 16px;
  border-collapse: collapse;
  display: block;
  width: max-content;
  max-width: 100%;
  overflow: auto;
}
th, td { padding: 6px 13px; border: 1px solid #d0d7de; }
th { font-weight: 600; }
tr:nth-child(2n) { background-color: #f6f8fa; }

mark { background-color: #fff8c5; color: inherit; }

/* Live selection spotlight: the paragraph or list item the presenter has
   selected in the app (see `HighlightTarget`). Every selected paragraph/item
   gets a warm tint (`piki-active`); the first one also gets a large arrow in the
   left gutter (`piki-lead`), so a multi-paragraph selection reads as one region
   with a single pointer. The classes are added server-side; they appear only
   while the editor has a selection and clear when the caret moves. */
.piki-active {
  position: relative;
  background-color: #fff3bf;
  border-radius: 3px;
  /* Extend the tint a little past the text box so it reads as a highlight band
     rather than a background stuck to the glyphs. */
  box-shadow: 0 0 0 0.3em #fff3bf;
  /* Play the entrance each time the spotlight lands: the live-reload swap
     re-inserts this element on every selection change, so the animation
     re-triggers precisely then (see the reload script). */
  animation: piki-active-band 0.28s ease-out;
}
.piki-lead::before {
  content: "";
  position: absolute;
  left: -1.85em;
  top: 50%;
  transform: translateY(-50%);
  /* A solid right-pointing triangle built from borders (no assets). */
  width: 0;
  height: 0;
  border-style: solid;
  border-width: 0.6em 0 0.6em 0.85em;
  border-color: transparent transparent transparent #f08c00;
  /* Slide in from the left with a slight overshoot, as if pointing. */
  animation: piki-active-arrow 0.42s cubic-bezier(0.34, 1.56, 0.64, 1);
}
/* List items sit inside the list's padding; nudge the arrow further left so it
   clears the bullet/number rather than colliding with it. */
li.piki-lead::before { left: -2.6em; }

/* Each keyframe set specifies only `from`; the implicit `to` is the element's
   own resting style, so the tint fades up to whatever the (light/dark) theme
   sets and the arrow settles at its themed color — no per-theme duplication. */
@keyframes piki-active-band {
  from { background-color: transparent; box-shadow: 0 0 0 0.3em transparent; }
}
@keyframes piki-active-arrow {
  from { opacity: 0; transform: translate(-0.7em, -50%); }
}
@media (prefers-reduced-motion: reduce) {
  .piki-active, .piki-lead::before { animation: none; }
}

hr { height: 0.25em; margin: 24px 0; background-color: #d0d7de; border: 0; }

img { max-width: 100%; }

#piki-status {
  position: fixed;
  top: 0;
  left: 0;
  right: 0;
  padding: 8px 16px;
  font-weight: 600;
  text-align: center;
  color: #ffffff;
  background-color: #cf222e;
}

/* Subtle footer with attribution and the reading-mode toggles, pinned as a
   small rounded pill in the bottom-right corner rather than a full-width bar, so
   it takes up as little of the page as possible. With no `left`/`width` it
   shrinks to fit its (single-line) content; the body's bottom padding keeps the
   last line from hiding behind it. */
#piki-footer {
  position: fixed;
  right: 12px;
  bottom: 12px;
  padding: 5px 12px;
  font-size: 12px;
  white-space: nowrap;
  color: #8b949e;
  background-color: rgba(255, 255, 255, 0.92);
  border: 1px solid #d8dee4;
  border-radius: 8px;
  box-shadow: 0 1px 4px rgba(31, 35, 40, 0.12);
  /* Fade in quickly when roused (see FOOTER_FADE_SCRIPT). */
  transition: opacity 0.18s ease;
}
/* Idle state: faded fully out and click-through, so it never obscures or blocks
   the content beneath it. Fades out slowly, unlike the quick fade-in above. */
#piki-footer.piki-faded {
  opacity: 0;
  pointer-events: none;
  transition: opacity 1s ease;
}
@media (prefers-reduced-motion: reduce) {
  #piki-footer, #piki-footer.piki-faded { transition: none; }
}
#piki-footer a.piki-col { color: #0969da; text-decoration: none; cursor: pointer; }
#piki-footer a.piki-col:hover { text-decoration: underline; }
#piki-footer a.piki-col.active {
  color: inherit;
  text-decoration: underline;
  cursor: default;
}
/* The line-spacing toggle uses icons rather than text; the current choice is
   shown grey (inherit) like the active column link, the other stays a blue
   link. `currentColor` on the SVG strokes makes them follow that color. */
#piki-footer a.piki-spacing {
  color: #0969da;
  cursor: pointer;
  display: inline-block;
  vertical-align: middle;
  margin: 0 1px;
}
#piki-footer a.piki-spacing.active { color: inherit; cursor: default; }
#piki-footer a.piki-spacing svg { display: block; }

/* Compact reading mode: tighter line height and block spacing so more content
   fits on screen. Toggled from the footer; the `compact` class on <body>
   survives live-reload because only #piki-doc is swapped. */
body.compact { line-height: 1.35; }
body.compact p,
body.compact ul,
body.compact ol,
body.compact pre,
body.compact blockquote,
body.compact table { margin-bottom: 10px; }
body.compact h1,
body.compact h2,
body.compact h3,
body.compact h4,
body.compact h5,
body.compact h6 { margin-top: 16px; margin-bottom: 8px; }
body.compact li + li { margin-top: 0.1em; }

/* Two-column reading mode: widen the page and flow the document into two
   balanced columns. Content is allowed to break across the column boundary so
   the columns balance — a long section (e.g. a heading with a big list) splits
   between the two columns instead of being forced whole into one and
   overflowing it. The rules below only forbid the *awkward* breaks: a heading
   stranded at a column foot, or a list item / code block sliced in half. */
body.cols-2 { max-width: 1400px; }
body.cols-2 #piki-doc { column-count: 2; column-gap: 48px; }
/* Keep a heading with the content that follows it, so a column break never
   orphans a heading at the foot of a column, while still letting the content
   itself flow on into the next column. `avoid-column` is the value Firefox
   honors in multicol; the `-webkit-`/`page-break-` forms cover WebKit/Blink
   and older engines. */
#piki-doc h1, #piki-doc h2, #piki-doc h3,
#piki-doc h4, #piki-doc h5, #piki-doc h6 {
  break-after: avoid;
  break-after: avoid-column;
  -webkit-column-break-after: avoid;
  page-break-after: avoid;
  break-inside: avoid;
}
#piki-doc pre, #piki-doc blockquote, #piki-doc table, #piki-doc li,
#piki-doc img { break-inside: avoid; }

@media (prefers-color-scheme: dark) {
  body { color: #e6edf3; background-color: #0d1117; }
  a { color: #4493f8; }
  h1, h2 { border-bottom-color: #30363d; }
  blockquote { color: #9198a1; border-left-color: #30363d; }
  code, tt { background-color: rgba(110, 118, 129, 0.4); }
  pre { background-color: #161b22; }
  th, td { border-color: #30363d; }
  tr:nth-child(2n) { background-color: #161b22; }
  mark { background-color: #bb8009; color: #1f2328; }
  .piki-active {
    background-color: rgba(240, 140, 0, 0.22);
    box-shadow: 0 0 0 0.3em rgba(240, 140, 0, 0.22);
  }
  .piki-lead::before {
    border-color: transparent transparent transparent #f0a53a;
  }
  hr { background-color: #30363d; }
  #piki-footer {
    color: #8b949e;
    background-color: rgba(13, 17, 23, 0.92);
    border-color: #30363d;
    box-shadow: 0 1px 4px rgba(1, 4, 9, 0.4);
  }
  #piki-footer a.piki-col { color: #4493f8; }
  #piki-footer a.piki-col.active { color: inherit; }
  #piki-footer a.piki-spacing { color: #4493f8; }
  #piki-footer a.piki-spacing.active { color: inherit; }
}
"##;


// ---------------------------------------------------------------------------
// The page around a note
// ---------------------------------------------------------------------------

/// A complete, styled page for `note` around its rendered `body`, embedding
/// the `version` token the reload script starts from.
pub open spec fn page_text(note: Seq<char>, body: Seq<char>, version: Seq<char>) -> Seq<char> {
    "<!doctype html>\n<html lang=\"en\">\n<head>\n<meta charset=\"utf-8\" />\n"@
        + "<meta name=\"viewport\" content=\"width=device-width, initial-scale=1\" />\n"@
        + "<meta name=\"color-scheme\" content=\"light dark\" />\n"@ + "<title>"@ + text_escaped(note)
        + "</title>\n<style>"@ + STYLESHEET@ + "</style>\n</head>\n<body>\n"@
        + "<div id=\"piki-doc\">\n"@ + body + "\n</div>\n"@
        + "<div id=\"piki-status\" hidden>Live sharing has ended.</div>\n"@
        + "<footer id=\"piki-footer\">Shared by Piki v"@ + VERSION@ + FOOTER_CONTROLS@ + "</footer>\n"@
        + "<script>window.__pikiInitialVersion = "@ + (seq!['"'] + json_body(version) + seq!['"'])
        + ";</script>\n<script>"@ + RELOAD_SCRIPT@ + "</script>\n<script>"@ + COLUMN_SCRIPT@
        + "</script>\n<script>"@ + SPACING_SCRIPT@ + "</script>\n<script>"@ + FOOTER_FADE_SCRIPT@
        + "</script>\n</body>\n</html>\n"@
}

/// The page for `note` around its rendered `body` (see `page_text`).
pub fn page_html(note: &str, body: &str, version: &str) -> (r: String)
    ensures
        r@ == page_text(note@, body@, version@),
{
    let mut page = chars_of("<!doctype html>\n<html lang=\"en\">\n<head>\n<meta charset=\"utf-8\" />\n");
    push_str(&mut page, "<meta name=\"viewport\" content=\"width=device-width, initial-scale=1\" />\n");
    push_str(&mut page, "<meta name=\"color-scheme\" content=\"light dark\" />\n");
    push_str(&mut page, "<title>");
    let title = html_escape_text(note);
    push_str(&mut page, title.as_str());
    push_str(&mut page, "</title>\n<style>");
    push_str(&mut page, STYLESHEET);
    push_str(&mut page, "</style>\n</head>\n<body>\n");
    push_str(&mut page, "<div id=\"piki-doc\">\n");
    push_str(&mut page, body);
    push_str(&mut page, "\n</div>\n");
    push_str(&mut page, "<div id=\"piki-status\" hidden>Live sharing has ended.</div>\n");
    push_str(&mut page, "<footer id=\"piki-footer\">Shared by Piki v");
    push_str(&mut page, VERSION);
    push_str(&mut page, FOOTER_CONTROLS);
    push_str(&mut page, "</footer>\n");
    push_str(&mut page, "<script>window.__pikiInitialVersion = ");
    let v = json_string(version);
    push_str(&mut page, v.as_str());
    push_str(&mut page, ";</script>\n<script>");
    push_str(&mut page, RELOAD_SCRIPT);
    push_str(&mut page, "</script>\n<script>");
    push_str(&mut page, COLUMN_SCRIPT);
    push_str(&mut page, "</script>\n<script>");
    push_str(&mut page, SPACING_SCRIPT);
    push_str(&mut page, "</script>\n<script>");
    push_str(&mut page, FOOTER_FADE_SCRIPT);
    push_str(&mut page, "</script>\n</body>\n</html>\n");
    string_of(page.as_slice())
}

/// The page answering a request for a note that is not shared.
pub open spec fn not_found_text(note: Seq<char>) -> Seq<char> {
    "<!doctype html><html lang=\"en\"><head><meta charset=\"utf-8\" />"@
        + "<meta name=\"color-scheme\" content=\"light dark\" />"@
        + "<title>Not found</title><style>"@ + STYLESHEET@ + "</style></head>"@
        + "<body><h1>Note not available</h1><p>The note <code>"@ + text_escaped(note)
        + "</code> is not being shared.</p></body></html>"@
}

/// The page for a note that is not being shared.
pub fn not_found_page(note: &str) -> (r: String)
    ensures
        r@ == not_found_text(note@),
{
    let mut page = chars_of("<!doctype html><html lang=\"en\"><head><meta charset=\"utf-8\" />");
    push_str(&mut page, "<meta name=\"color-scheme\" content=\"light dark\" />");
    push_str(&mut page, "<title>Not found</title><style>");
    push_str(&mut page, STYLESHEET);
    push_str(&mut page, "</style></head>");
    push_str(&mut page, "<body><h1>Note not available</h1><p>The note <code>");
    let n = html_escape_text(note);
    push_str(&mut page, n.as_str());
    push_str(&mut page, "</code> is not being shared.</p></body></html>");
    string_of(page.as_slice())
}

// ---------------------------------------------------------------------------
// The note's HTML
// ---------------------------------------------------------------------------

/// One top-level block of a note, rendered on its own.
pub struct RenderedBlock {
    /// The block is a heading (level one to three).
    pub is_heading: bool,
    /// The block's HTML, beginning with its opening tag.
    pub html: String,
}

/// A rendered block as a value.
pub open spec fn block_view(b: RenderedBlock) -> (bool, Seq<char>) {
    (b.is_heading, b.html@)
}

/// The blocks as values.
pub open spec fn block_views(v: Seq<RenderedBlock>) -> Seq<(bool, Seq<char>)> {
    v.map_values(|b: RenderedBlock| block_view(b))
}

/// The position of a highlight in document order: its block first, then the
/// whole block before its list items, items in order.
pub open spec fn target_key(t: HighlightTarget) -> (int, int) {
    (
        t.block as int,
        match t.li {
            Some(k) => k + 1,
            None => 0,
        },
    )
}

/// `a` comes before `b` in document order.
pub open spec fn key_before(a: (int, int), b: (int, int)) -> bool {
    a.0 < b.0 || (a.0 == b.0 && a.1 < b.1)
}

/// The lead highlight: the first in document order (the earliest given among
/// equals); `None` when nothing is highlighted.
pub open spec fn lead_of(ts: Seq<HighlightTarget>) -> Option<HighlightTarget>
    decreases ts.len(),
{
    if ts.len() == 0 {
        None
    } else {
        match lead_of(ts.drop_last()) {
            None => Some(ts.last()),
            Some(p) => if key_before(target_key(ts.last()), target_key(p)) {
                Some(ts.last())
            } else {
                Some(p)
            },
        }
    }
}

/// The list-item indices highlighted in block `index`, in the order given.
pub open spec fn li_indices(ts: Seq<HighlightTarget>, index: int) -> Seq<usize>
    decreases ts.len(),
{
    if ts.len() == 0 {
        Seq::empty()
    } else {
        let prev = li_indices(ts.drop_last(), index);
        match ts.last().li {
            Some(k) => if ts.last().block as int == index {
                prev.push(k)
            } else {
                prev
            },
            None => prev,
        }
    }
}

/// Block `index` is highlighted as a whole.
pub open spec fn whole_block(ts: Seq<HighlightTarget>, index: int) -> bool {
    exists|k: int| 0 <= k < ts.len() && ts[k].block as int == index && #[trigger] ts[k].li is None
}

/// Block `index`'s HTML with its highlights marked: the root element when the
/// whole block is highlighted (with the arrow when that is the lead), then its
/// highlighted list items (the lead's among them with the arrow).
pub open spec fn block_marked(html: Seq<char>, index: int, ts: Seq<HighlightTarget>) -> Seq<char> {
    let lead = lead_of(ts);
    let root = if whole_block(ts, index) {
        marked_root(
            html,
            lead matches Some(t) && t.block as int == index && t.li is None,
        )
    } else {
        html
    };
    let lis = li_indices(ts, index);
    if lis.len() > 0 {
        let lead_li = match lead {
            Some(t) => if t.block as int == index {
                t.li
            } else {
                None
            },
            None => None,
        };
        marked_lis(root, lis, lead_li, 0)
    } else {
        root
    }
}

/// What comes before a block: for a heading, the end of the open section (if
/// any) and the start of a new one.
pub open spec fn section_opening(is_heading: bool, open: bool) -> Seq<char> {
    if is_heading {
        (if open {
            "</section>\n"@
        } else {
            Seq::empty()
        }) + "<section class=\"piki-sec\">\n"@
    } else {
        Seq::empty()
    }
}

/// The note's HTML from block `i` on: each block (marked) on a line of its
/// own, every heading opening a `<section class="piki-sec">` that runs to the
/// next heading or the end; `open` tells whether a section is open.
pub open spec fn sectioned(blocks: Seq<(bool, Seq<char>)>, ts: Seq<HighlightTarget>, i: int, open: bool) -> Seq<char>
    decreases blocks.len() - i,
{
    if i < 0 || i >= blocks.len() {
        if open {
            "</section>\n"@
        } else {
            Seq::empty()
        }
    } else {
        section_opening(blocks[i].0, open) + block_marked(blocks[i].1, i, ts) + seq!['\n'] + sectioned(
            blocks,
            ts,
            i + 1,
            open || blocks[i].0,
        )
    }
}

/// The lead highlight is one of the highlights and none comes before it in
/// document order, so exactly one element carries the arrow whenever anything
/// is highlighted.
pub proof fn lead_is_first_in_document_order(ts: Seq<HighlightTarget>)
    ensures
        ts.len() == 0 <==> lead_of(ts) is None,
        lead_of(ts) matches Some(l) ==> (exists|k: int| 0 <= k < ts.len() && ts[k] == l),
        lead_of(ts) matches Some(l) ==> forall|k: int|
            0 <= k < ts.len() ==> !key_before(#[trigger] target_key(ts[k]), target_key(l)),
    decreases ts.len(),
{
    if ts.len() > 0 {
        let prev = ts.drop_last();
        lead_is_first_in_document_order(prev);
        match lead_of(prev) {
            None => {
                assert(ts[ts.len() - 1] == ts.last());
            },
            Some(p) => {
                let k0 = choose|k: int| 0 <= k < prev.len() && prev[k] == p;
                assert(ts[k0] == p);
                assert(ts[ts.len() - 1] == ts.last());
                assert forall|k: int| 0 <= k < ts.len() implies !key_before(
                    #[trigger] target_key(ts[k]),
                    target_key(lead_of(ts)->0),
                ) by {
                    if k < ts.len() - 1 {
                        assert(ts[k] == prev[k]);
                        assert(!key_before(target_key(prev[k]), target_key(p)));
                    }
                }
            },
        }
    }
}

fn lead_target(highlight: &[HighlightTarget]) -> (r: Option<HighlightTarget>)
    ensures
        r == lead_of(highlight@),
{
    let mut lead: Option<HighlightTarget> = None;
    let mut i: usize = 0;
    while i < highlight.len()
        invariant
            i <= highlight@.len(),
            lead == lead_of(highlight@.take(i as int)),
        decreases highlight.len() - i,
    {
        let t = highlight[i];
        assert(highlight@.take(i + 1).drop_last() =~= highlight@.take(i as int));
        lead = match lead {
            None => Some(t),
            Some(p) => {
                let before = t.block < p.block || (t.block == p.block && match (t.li, p.li) {
                    (None, None) => false,
                    (None, Some(_)) => true,
                    (Some(_), None) => false,
                    (Some(a), Some(b)) => a < b,
                });
                proof {
                    if !before {
                        assert(!key_before(target_key(t), target_key(p)));
                    }
                }
                if before {
                    Some(t)
                } else {
                    Some(p)
                }
            },
        };
        i += 1;
    }
    assert(highlight@.take(highlight@.len() as int) =~= highlight@);
    lead
}

fn block_highlights(highlight: &[HighlightTarget], index: usize) -> (r: (bool, Vec<usize>))
    ensures
        r.0 == whole_block(highlight@, index as int),
        r.1@ == li_indices(highlight@, index as int),
{
    let mut whole = false;
    let mut lis: Vec<usize> = Vec::new();
    let mut i: usize = 0;
    while i < highlight.len()
        invariant
            i <= highlight@.len(),
            whole == whole_block(highlight@.take(i as int), index as int),
            lis@ == li_indices(highlight@.take(i as int), index as int),
        decreases highlight.len() - i,
    {
        let t = highlight[i];
        let ghost pre = highlight@.take(i as int);
        let ghost next = highlight@.take(i + 1);
        assert(next.drop_last() =~= pre);
        assert(next.last() == t);
        if t.block == index {
            match t.li {
                Some(k) => lis.push(k),
                None => {
                    whole = true;
                },
            }
        }
        proof {
            if whole_block(pre, index as int) {
                let k = choose|k: int| 0 <= k < pre.len() && pre[k].block as int == index && #[trigger] pre[k].li is None;
                assert(next[k] == pre[k]);
            }
            if whole_block(next, index as int) && !whole_block(pre, index as int) {
                let k = choose|k: int| 0 <= k < next.len() && next[k].block as int == index && #[trigger] next[k].li is None;
                if k < pre.len() {
                    assert(pre[k] == next[k]);
                }
            }
            if t.block == index && t.li is None {
                assert(next[i as int] == t);
            }
        }
        i += 1;
    }
    assert(highlight@.take(highlight@.len() as int) =~= highlight@);
    (whole, lis)
}

fn mark_block(
    b: &RenderedBlock,
    index: usize,
    highlight: &[HighlightTarget],
    lead: Option<HighlightTarget>,
) -> (r: String)
    requires
        lead == lead_of(highlight@),
    ensures
        r@ == block_marked(b.html@, index as int, highlight@),
{
    let (whole, lis) = block_highlights(highlight, index);
    let root = if whole {
        let is_lead = match lead {
            Some(t) => t.block == index && t.li.is_none(),
            None => false,
        };
        mark_block_root(b.html.as_str(), is_lead)
    } else {
        b.html.clone()
    };
    if lis.len() > 0 {
        let lead_li = match lead {
            Some(t) => if t.block == index {
                t.li
            } else {
                None
            },
            None => None,
        };
        mark_lis(root.as_str(), lis.as_slice(), lead_li)
    } else {
        root
    }
}

/// A note's HTML from its top-level blocks, each rendered on its own: every
/// heading opens a section that runs to the next heading, and the
/// highlighted blocks and list items are marked, the first in document order
/// with the pointing arrow. Highlights beyond the blocks or their items mark
/// nothing.
pub fn render_sectioned_html(blocks: &[RenderedBlock], highlight: &[HighlightTarget]) -> (r: String)
    ensures
        r@ == sectioned(block_views(blocks@), highlight@, 0, false),
{
    let ghost bv = block_views(blocks@);
    let lead = lead_target(highlight);
    let mut out: Vec<char> = Vec::new();
    let mut open = false;
    let mut i: usize = 0;
    while i < blocks.len()
        invariant
            bv == block_views(blocks@),
            lead == lead_of(highlight@),
            i <= blocks@.len(),
            out@ + sectioned(bv, highlight@, i as int, open) == sectioned(bv, highlight@, 0, false),
        decreases blocks.len() - i,
    {
        let ghost before = out@;
        let ghost was_open = open;
        let b = &blocks[i];
        assert(bv[i as int] == block_view(*b));
        if b.is_heading {
            if open {
                push_str(&mut out, "</section>\n");
            }
            push_str(&mut out, "<section class=\"piki-sec\">\n");
            open = true;
        }
        assert(out@ =~= before + section_opening(b.is_heading, was_open));
        let ghost mid = out@;
        let marked = mark_block(b, i, highlight, lead);
        assert(marked@ == block_marked(bv[i as int].1, i as int, highlight@));
        push_str(&mut out, marked.as_str());
        out.push('\n');
        assert(out@ =~= mid + block_marked(bv[i as int].1, i as int, highlight@) + seq!['\n']);
        assert(sectioned(bv, highlight@, i as int, was_open) == section_opening(bv[i as int].0, was_open)
            + block_marked(bv[i as int].1, i as int, highlight@) + seq!['\n'] + sectioned(
            bv,
            highlight@,
            i + 1,
            open,
        ));
        i += 1;
    }
    if open {
        push_str(&mut out, "</section>\n");
    }
    string_of(out.as_slice())
}

/// The body of the web view: the note's blocks in sections with their
/// highlights (see `render_sectioned_html`), and each heading's opening tag
/// given the `id` of its anchor, in document order.
pub fn assemble_fragment(
    blocks: &[RenderedBlock],
    anchors: &[String],
    highlight: &[HighlightTarget],
) -> (r: String)
    ensures
        r@ == with_ids(sectioned(block_views(blocks@), highlight@, 0, false), string_views(anchors@)),
{
    let sectioned_html = render_sectioned_html(blocks, highlight);
    inject_heading_ids(sectioned_html.as_str(), anchors)
}

/// How many `<li>` tags a block's HTML holds (its list items).
pub open spec fn li_count(s: Seq<char>) -> nat
    decreases s.len(),
{
    match first_occurrence(s, li_open()) {
        Some(p) => if 0 <= p && p + 4 <= s.len() {
            1 + li_count(s.skip(p + 4))
        } else {
            0
        },
        None => 0,
    }
}

/// A highlight that points at no element of the blocks: past the last block,
/// or at a list item past the last one of its block.
pub open spec fn addresses_nothing(blocks: Seq<(bool, Seq<char>)>, t: HighlightTarget) -> bool {
    ||| t.block >= blocks.len()
    ||| (t.li matches Some(k) && k >= li_count(blocks[t.block as int].1))
}

proof fn lemma_first_exists(s: Seq<char>, p: Seq<char>, i0: int)
    requires
        occurs_at(s, p, i0),
    ensures
        exists|i: int| is_first_occurrence(s, p, i),
    decreases i0,
{
    if exists|j: int| 0 <= j < i0 && occurs_at(s, p, j) {
        let j = choose|j: int| 0 <= j < i0 && occurs_at(s, p, j);
        lemma_first_exists(s, p, j);
    } else {
        assert(is_first_occurrence(s, p, i0));
    }
}

/// Marking list items that all lie past the last `<li>` changes nothing.
proof fn lemma_marked_lis_unchanged(s: Seq<char>, indices: Seq<usize>, lead: Option<usize>, c: int)
    requires
        forall|k: int| 0 <= k < indices.len() ==> indices[k] >= c + li_count(s),
    ensures
        marked_lis(s, indices, lead, c) == s,
    decreases s.len(),
{
    match first_occurrence(s, li_open()) {
        Some(p) => if 0 <= p && p + 4 <= s.len() {
            assert(contains(s, li_open()));
            let i0 = choose|i: int| occurs_at(s, li_open(), i);
            lemma_first_exists(s, li_open(), i0);
            assert(is_first_occurrence(s, li_open(), p));
            assert(!crate::gui::live_share::has_index(indices, c));
            lemma_marked_lis_unchanged(s.skip(p + 4), indices, lead, c + 1);
            assert(s.take(p) + li_open() + s.skip(p + 4) =~= s);
        },
        None => {},
    }
}

proof fn lemma_li_indices_at_least(ts: Seq<HighlightTarget>, index: int, bound: int)
    requires
        forall|k: int|
            0 <= k < ts.len() && ts[k].block as int == index && ts[k].li is Some ==> #[trigger] ts[k].li->0
                >= bound,
    ensures
        forall|m: int| 0 <= m < li_indices(ts, index).len() ==> li_indices(ts, index)[m] >= bound,
    decreases ts.len(),
{
    if ts.len() > 0 {
        let prev = ts.drop_last();
        assert forall|k: int|
            0 <= k < prev.len() && prev[k].block as int == index && prev[k].li is Some implies #[trigger] prev[k].li->0
                >= bound by {
            assert(prev[k] == ts[k]);
        }
        lemma_li_indices_at_least(prev, index, bound);
        let n = ts.len() - 1;
        assert(ts.last() == ts[n]);
        if ts[n].block as int == index && ts[n].li is Some {
            assert(ts[n].li->0 >= bound);
            let l = li_indices(ts, index);
            assert(l == li_indices(prev, index).push(ts[n].li->0));
            assert forall|m: int| 0 <= m < l.len() implies l[m] >= bound by {
                if m < l.len() - 1 {
                    assert(l[m] == li_indices(prev, index)[m]);
                }
            }
        }
    }
}

/// Highlights that point at no element leave the note's HTML as it is
/// without any highlight: nothing is marked and no arrow is shown.
pub proof fn unaddressed_highlights_change_nothing(
    blocks: Seq<(bool, Seq<char>)>,
    ts: Seq<HighlightTarget>,
    i: int,
    open: bool,
)
    requires
        forall|k: int| 0 <= k < ts.len() ==> addresses_nothing(blocks, #[trigger] ts[k]),
    ensures
        sectioned(blocks, ts, i, open) == sectioned(blocks, Seq::empty(), i, open),
    decreases blocks.len() - i,
{
    if 0 <= i < blocks.len() {
        let html = blocks[i].1;
        assert(!whole_block(ts, i)) by {
            if whole_block(ts, i) {
                let k = choose|k: int| 0 <= k < ts.len() && ts[k].block as int == i && #[trigger] ts[k].li is None;
                assert(addresses_nothing(blocks, ts[k]));
            }
        }
        assert forall|k: int|
            0 <= k < ts.len() && ts[k].block as int == i && ts[k].li is Some implies #[trigger] ts[k].li->0
                >= li_count(html) by {
            assert(addresses_nothing(blocks, ts[k]));
        }
        lemma_li_indices_at_least(ts, i, li_count(html) as int);
        let lis = li_indices(ts, i);
        if lis.len() > 0 {
            let lead = lead_of(ts);
            let lead_li = match lead {
                Some(t) => if t.block as int == i {
                    t.li
                } else {
                    None
                },
                None => None,
            };
            lemma_marked_lis_unchanged(html, lis, lead_li, 0);
        }
        assert(block_marked(html, i, ts) == html);
        let e = Seq::<HighlightTarget>::empty();
        assert(!whole_block(e, i));
        assert(li_indices(e, i).len() == 0);
        assert(block_marked(html, i, e) == html);
        unaddressed_highlights_change_nothing(blocks, ts, i + 1, open || blocks[i].0);
    }
}

} // verus!
