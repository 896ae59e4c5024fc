//! What the live-sharing server holds and how it answers a request.
//!
//! The server thread, its socket and reading notes from disk belong to the
//! application; the state it serves from, how that state changes when the
//! editor moves on, and which answer a requested URL gets are decided here.
use vstd::prelude::*;
use crate::gui::live_share::{
    is_valid_note_name, lookup_param, query_param, valid_note_name, HighlightTarget,
};
use crate::gui::percent::{ascii_text, encode_path, escaped, percent_decode, percent_decoded, read_utf8};
use crate::text::{
    chars_of, decimal, decimal_u128, find_char, first_index_of, opt_view, push_all, push_str,
    same_text, slice, split_on, string_of,
};
use vstd::utf8::encode_utf8;

verus! {

// ---------------------------------------------------------------------------
// The shared state
// ---------------------------------------------------------------------------

/// What the server serves, kept up to date by the editor.
pub struct ShareState {
    /// The notes directory, from which other notes are read.
    pub dir: String,
    /// The note open in the editor.
    pub current_note: String,
    /// The live Markdown of that note, unsaved edits included.
    pub current_markdown: String,
    /// The elements to spotlight in the current note (empty without a
    /// selection); they only ever apply to the current note.
    pub highlight: Vec<HighlightTarget>,
    /// Bumped (wrapping) whenever the current note, its Markdown or the
    /// highlight changes; the browser reloads when it sees a new value.
    pub generation: u64,
}

/// The state as values: note, Markdown, highlight, generation.
pub open spec fn state_view(s: ShareState) -> (Seq<char>, Seq<char>, Seq<HighlightTarget>, u64) {
    (s.current_note@, s.current_markdown@, s.highlight@, s.generation)
}

/// The generation after one more change.
pub open spec fn next_generation(g: u64) -> u64 {
    if g == u64::MAX {
        0
    } else {
        (g + 1) as u64
    }
}

/// The state after the editor reports `note` with `markdown` as current: when
/// either differs, both are taken, the highlight is dropped if the note
/// changed (its indices belonged to the other note), and the generation moves
/// on; otherwise nothing changes.
pub open spec fn after_set_current(
    v: (Seq<char>, Seq<char>, Seq<HighlightTarget>, u64),
    note: Seq<char>,
    markdown: Seq<char>,
) -> (Seq<char>, Seq<char>, Seq<HighlightTarget>, u64) {
    if v.0 != note || v.1 != markdown {
        (note, markdown, if v.0 != note {
            Seq::empty()
        } else {
            v.2
        }, next_generation(v.3))
    } else {
        v
    }
}

/// The state after the editor reports a new highlight: taken, with the
/// generation moving on, when it differs from the present one.
pub open spec fn after_set_highlight(
    v: (Seq<char>, Seq<char>, Seq<HighlightTarget>, u64),
    targets: Seq<HighlightTarget>,
) -> (Seq<char>, Seq<char>, Seq<HighlightTarget>, u64) {
    if v.2 != targets {
        (v.0, v.1, targets, next_generation(v.3))
    } else {
        v
    }
}

fn same_targets(a: &Vec<HighlightTarget>, b: &Vec<HighlightTarget>) -> (r: bool)
    ensures
        r == (a@ == b@),
{
    if a.len() != b.len() {
        return false;
    }
    let mut i: usize = 0;
    while i < a.len()
        invariant
            a@.len() == b@.len(),
            i <= a@.len(),
            forall|k: int| 0 <= k < i ==> a@[k] == b@[k],
        decreases a.len() - i,
    {
        if a[i] != b[i] {
            return false;
        }
        i += 1;
    }
    assert(a@ =~= b@);
    true
}

fn bump(g: u64) -> (r: u64)
    ensures
        r == next_generation(g),
{
    if g == u64::MAX {
        0
    } else {
        g + 1
    }
}

impl ShareState {
    /// The state of a new session serving `note` (with live `markdown`) from
    /// `dir`: nothing highlighted, generation 1.
    pub fn new(dir: String, note: String, markdown: String) -> (r: Self)
        ensures
            state_view(r) == (note@, markdown@, Seq::<HighlightTarget>::empty(), 1u64),
            r.dir@ == dir@,
    {
        ShareState {
            dir,
            current_note: note,
            current_markdown: markdown,
            highlight: Vec::new(),
            generation: 1,
        }
    }

    /// Take `note` with `markdown` as the current note (see
    /// `after_set_current`).
    pub fn set_current(&mut self, note: &str, markdown: &str)
        ensures
            state_view(*final(self)) == after_set_current(state_view(*old(self)), note@, markdown@),
            final(self).dir@ == old(self).dir@,
    {
        let note_changed = !same_text(self.current_note.as_str(), note);
        if note_changed || !same_text(self.current_markdown.as_str(), markdown) {
            self.current_note = note.to_owned();
            self.current_markdown = markdown.to_owned();
            if note_changed {
                self.highlight = Vec::new();
            }
            self.generation = bump(self.generation);
        }
    }

    /// Take `targets` as the highlight (see `after_set_highlight`).
    pub fn set_highlight(&mut self, targets: Vec<HighlightTarget>)
        ensures
            state_view(*final(self)) == after_set_highlight(state_view(*old(self)), targets@),
            final(self).dir@ == old(self).dir@,
    {
        if !same_targets(&self.highlight, &targets) {
            self.highlight = targets;
            self.generation = bump(self.generation);
        }
    }
}

/// Reporting what is already current changes nothing, so the browser does not
/// reload; a change of note or content always moves the generation on, and a
/// change of note never keeps a highlight meant for the note left behind.
pub proof fn reload_only_on_change(
    v: (Seq<char>, Seq<char>, Seq<HighlightTarget>, u64),
    note: Seq<char>,
    markdown: Seq<char>,
    targets: Seq<HighlightTarget>,
)
    ensures
        after_set_current(v, v.0, v.1) == v,
        after_set_highlight(v, v.2) == v,
        (v.0 != note || v.1 != markdown) ==> after_set_current(v, note, markdown).3 != v.3,
        v.2 != targets ==> after_set_highlight(v, targets).3 != v.3,
        v.0 != note ==> after_set_current(v, note, markdown).2.len() == 0,
        after_set_current(v, note, markdown).0 == note,
        after_set_current(v, note, markdown).1 == markdown,
{
}

// ---------------------------------------------------------------------------
// Answering a request
// ---------------------------------------------------------------------------

/// The answer a request gets.
#[derive(Debug, Clone, PartialEq, Eq)]
pub enum Route {
    /// The root: redirect to this location (the current note's path).
    Redirect(String),
    /// The browser's icon request: an empty answer.
    NoContent,
    /// The live-reload script asks for the version token of this note.
    Version(String),
    /// A note: `current` when it is the note open in the editor (served from
    /// memory, with the highlight), else to be read from disk; `raw` asks for
    /// the body fragment alone.
    Note { note: String, current: bool, raw: bool },
    /// A name that may not be read from disk: not found.
    NotFound(String),
}

/// The part of a URL before its first `?`, and the query after it.
pub open spec fn url_parts(url: Seq<char>) -> (Seq<char>, Seq<char>) {
    match first_index_of(url, '?') {
        Some(i) => (url.take(i), url.skip(i + 1)),
        None => (url, Seq::empty()),
    }
}

/// A path with its leading `/`s removed.
pub open spec fn without_leading_slashes(s: Seq<char>) -> Seq<char>
    decreases s.len(),
{
    if s.len() > 0 && s[0] == '/' {
        without_leading_slashes(s.drop_first())
    } else {
        s
    }
}

/// The decoded path of a request.
pub open spec fn request_path(url: Seq<char>) -> Seq<char> {
    read_utf8(percent_decoded(encode_utf8(url_parts(url).0)))
}

/// How a request for `url` is answered while `current` is the open note: the
/// root redirects to the current note, the icon gets nothing, the version
/// endpoint reports on the note its query names, and any other path names a
/// note, which is the current one, or one that may be read from disk, or not
/// found.
pub open spec fn route_of(url: Seq<char>, current: Seq<char>) -> (u8, Seq<char>, bool, bool) {
    let path = request_path(url);
    let query = url_parts(url).1;
    if path == "/"@ {
        (0, seq!['/'] + ascii_text(escaped(encode_utf8(current), true)), false, false)
    } else if path == "/favicon.ico"@ {
        (1, Seq::empty(), false, false)
    } else if path == "/__piki/version"@ {
        (
            2,
            match lookup_param(split_on(query, '&'), "note"@) {
                Some(n) => n,
                None => Seq::empty(),
            },
            false,
            false,
        )
    } else {
        let note = without_leading_slashes(path);
        if note == current {
            (3, note, true, lookup_param(split_on(query, '&'), "raw"@) is Some)
        } else if valid_note_name(note) {
            (3, note, false, lookup_param(split_on(query, '&'), "raw"@) is Some)
        } else {
            (4, note, false, false)
        }
    }
}

/// A route as values: its kind, text, and the two flags of a note.
pub open spec fn route_view(r: Route) -> (u8, Seq<char>, bool, bool) {
    match r {
        Route::Redirect(l) => (0, l@, false, false),
        Route::NoContent => (1, Seq::empty(), false, false),
        Route::Version(n) => (2, n@, false, false),
        Route::Note { note, current, raw } => (3, note@, current, raw),
        Route::NotFound(n) => (4, n@, false, false),
    }
}

/// Decide how to answer a request for `url` (see `route_of`).
pub fn route_request(url: &str, current_note: &str) -> (r: Route)
    ensures
        route_view(r) == route_of(url@, current_note@),
{
    let u = chars_of(url);
    let n = u.len();
    let found = find_char(u.as_slice(), '?');
    let (p, q) = match found {
        Some(i) => {
            assert(i < n);
            (slice(u.as_slice(), 0, i), slice(u.as_slice(), i + 1, n))
        },
        None => (slice(u.as_slice(), 0, u.len()), Vec::new()),
    };
    assert(p@ == url_parts(url@).0 && q@ == url_parts(url@).1) by {
        assert(u@.take(u@.len() as int) =~= u@);
        if first_index_of(u@, '?') is None {
            assert(q@ =~= Seq::<char>::empty());
        }
    }
    let ps = string_of(p.as_slice());
    let qs = string_of(q.as_slice());
    let path = percent_decode(ps.as_str());
    proof {
        reveal_strlit("/");
        reveal_strlit("/favicon.ico");
        reveal_strlit("/__piki/version");
    }
    if same_text(path.as_str(), "/") {
        let mut loc: Vec<char> = Vec::new();
        loc.push('/');
        let enc = encode_path(current_note);
        push_all(&mut loc, enc.as_slice());
        return Route::Redirect(string_of(loc.as_slice()));
    }
    if same_text(path.as_str(), "/favicon.ico") {
        return Route::NoContent;
    }
    if same_text(path.as_str(), "/__piki/version") {
        let note = match query_param(qs.as_str(), "note") {
            Some(n) => n,
            None => String::new(),
        };
        return Route::Version(note);
    }
    let pv = chars_of(path.as_str());
    let mut i: usize = 0;
    assert(pv@.skip(0) =~= pv@);
    while i < pv.len() && pv[i] == '/'
        invariant
            i <= pv@.len(),
            without_leading_slashes(pv@) == without_leading_slashes(pv@.skip(i as int)),
        decreases pv.len() - i,
    {
        assert(pv@.skip(i as int).drop_first() =~= pv@.skip(i + 1));
        i += 1;
    }
    let rest = slice(pv.as_slice(), i, pv.len());
    assert(rest@ =~= pv@.skip(i as int));
    let note = string_of(rest.as_slice());
    let raw = query_param(qs.as_str(), "raw").is_some();
    if same_text(note.as_str(), current_note) {
        Route::Note { note, current: true, raw }
    } else if is_valid_note_name(note.as_str()) {
        Route::Note { note, current: false, raw }
    } else {
        Route::NotFound(note)
    }
}

/// The path a link to `note` is rewritten to for the web view (the part the
/// browser requests: everything before the `#section`).
pub open spec fn note_path(note: Seq<char>) -> Seq<char> {
    seq!['/'] + ascii_text(escaped(encode_utf8(note), true))
}

/// A link rewritten for the web view leads to the note it names: requesting
/// the rewritten path makes the server read that very note name back, as a
/// note (from memory when it is the current one), never as the raw fragment.
/// Names that would collide with the root or the server's own endpoints, or
/// that start with `/` (the server drops leading slashes), are left out.
pub proof fn rewritten_link_reaches_its_note(note: Seq<char>, current: Seq<char>)
    requires
        note.len() > 0,
        note[0] != '/',
        note != "favicon.ico"@,
        note != "__piki/version"@,
    ensures
        route_of(note_path(note), current).1 == note,
        route_of(note_path(note), current).0 == 3 || route_of(note_path(note), current).0 == 4,
        route_of(note_path(note), current).2 == (note == current),
        !route_of(note_path(note), current).3,
{
    let url = note_path(note);
    let e = escaped(encode_utf8(note), true);
    crate::gui::percent::lemma_escaped_safe(encode_utf8(note), true);
    assert forall|k: int| 0 <= k < e.len() implies #[trigger] e[k] < 128 by {
        assert(crate::gui::percent::url_safe(e[k]));
    }
    // No `?` in the encoded path: the whole URL is the path.
    assert forall|k: int| 0 <= k < url.len() implies url[k] != '?' by {
        if k > 0 {
            assert(url[k] == ascii_text(e)[k - 1]);
            assert(crate::gui::percent::url_safe(e[k - 1]));
            assert(e[k - 1] != 63);
        }
    }
    assert(url_parts(url).0 == url);
    assert(url_parts(url).1 == Seq::<char>::empty());
    // Decoding the path gives `/` and the note back.
    crate::gui::percent::lemma_encode_utf8_concat(seq!['/'], ascii_text(e));
    crate::gui::percent::lemma_ascii_text_bytes(e);
    crate::gui::percent::lemma_ascii_text_bytes(seq![47u8]);
    assert(ascii_text(seq![47u8]) =~= seq!['/']);
    assert(encode_utf8(seq!['/']) =~= seq![47u8]);
    crate::gui::percent::lemma_decode_escaped(encode_utf8(note), true, Seq::empty());
    assert(e + Seq::<u8>::empty() =~= e);
    assert(percent_decoded(Seq::<u8>::empty()) =~= Seq::<u8>::empty());
    let bytes = seq![47u8] + e;
    assert(encode_utf8(url) == bytes);
    assert(bytes.drop_first() =~= e);
    assert(percent_decoded(bytes) =~= seq![47u8] + encode_utf8(note));
    crate::gui::percent::lemma_encode_utf8_concat(seq!['/'], note);
    assert(seq![47u8] + encode_utf8(note) == encode_utf8(seq!['/'] + note));
    vstd::utf8::encode_utf8_valid_utf8(seq!['/'] + note);
    vstd::utf8::encode_utf8_decode_utf8(seq!['/'] + note);
    let path = request_path(url);
    assert(path == seq!['/'] + note);
    // Not one of the server's own paths.
    reveal_strlit("/");
    reveal_strlit("/favicon.ico");
    reveal_strlit("/__piki/version");
    reveal_strlit("favicon.ico");
    reveal_strlit("__piki/version");
    assert(path != "/"@) by {
        assert(path.len() > 1);
    }
    assert(path != "/favicon.ico"@) by {
        if path == "/favicon.ico"@ {
            assert(note =~= path.drop_first());
            assert(path.drop_first() =~= "favicon.ico"@);
        }
    }
    assert(path != "/__piki/version"@) by {
        if path == "/__piki/version"@ {
            assert(note =~= path.drop_first());
            assert(path.drop_first() =~= "__piki/version"@);
        }
    }
    assert(path.drop_first() =~= note);
    assert(without_leading_slashes(note) == note);
    assert(without_leading_slashes(path) == note);
    // An empty query has no `raw` parameter.
    reveal_strlit("raw");
    assert(split_on(Seq::<char>::empty(), '&') =~= seq![Seq::<char>::empty()]);
    assert(crate::gui::live_share::pair_key(Seq::<char>::empty()) =~= Seq::<char>::empty());
    assert(lookup_param(seq![Seq::<char>::empty()], "raw"@) is None) by {
        let ps = seq![Seq::<char>::empty()];
        assert(ps[0] == Seq::<char>::empty());
        assert(first_index_of(Seq::<char>::empty(), '=') is None);
        assert(crate::gui::live_share::pair_key(ps[0]) == Seq::<char>::empty());
        assert("raw"@.len() == 3);
        assert(crate::gui::live_share::pair_key(ps[0]) != "raw"@);
        assert(ps.drop_first() =~= Seq::<Seq<char>>::empty());
        assert(lookup_param(ps.drop_first(), "raw"@) is None);
    }
}

/// The shareable URL of `note` on a server listening on `port`.
pub open spec fn share_url_text(port: u16, note: Seq<char>) -> Seq<char> {
    "http://localhost:"@ + decimal(port as nat) + seq!['/'] + ascii_text(escaped(encode_utf8(note), true))
}

/// The shareable URL of `note`.
pub fn url_for(port: u16, note: &str) -> (r: String)
    ensures
        r@ == share_url_text(port, note@),
{
    let mut out = chars_of("http://localhost:");
    let d = decimal_u128(port as u128);
    push_all(&mut out, d.as_slice());
    out.push('/');
    let enc = encode_path(note);
    push_all(&mut out, enc.as_slice());
    string_of(out.as_slice())
}

} // verus!
