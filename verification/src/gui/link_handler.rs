//! Links in a note's text: finding the one under a position, and telling
//! external destinations (opened by the system) from note names.
use vstd::prelude::*;
use vstd::utf8::*;
use crate::gui::markdown::{item_views, markdown_events, markdown_items, MdEvent, MdEventView};
use crate::text::{
    chars_of, find, is_ascii_alnum, is_ascii_alpha, is_ascii_alphabetic, is_ascii_numeric,
    is_first_occurrence, lowered, starts_with, starts_with_ignoring_case, trim_start,
    trimmed_start, slice, string_of,
};

verus! {

/// A link in a note: where it starts and ends in the text, where it points,
/// and what it reads.
#[derive(Debug, Clone)]
pub struct Link {
    pub start: usize,
    pub end: usize,
    pub destination: String,
    pub text: String,
}

/// Whether `pos` falls inside the link.
pub open spec fn covers(link: Link, pos: usize) -> bool {
    link.start <= pos && pos < link.end
}

/// Find the first link that covers character position `pos`.
pub fn find_link_at_position(links: &[Link], pos: usize) -> (r: Option<&Link>)
    ensures
        match r {
            Some(l) => exists|i: int|
                0 <= i < links@.len() && *l == links@[i] && covers(links@[i], pos) && forall|j: int|
                    0 <= j < i ==> !covers(#[trigger] links@[j], pos),
            None => forall|j: int| 0 <= j < links@.len() ==> !covers(#[trigger] links@[j], pos),
        },
{
    let mut i: usize = 0;
    while i < links.len()
        invariant
            i <= links@.len(),
            forall|j: int| 0 <= j < i ==> !covers(#[trigger] links@[j], pos),
        decreases links.len() - i,
    {
        if pos >= links[i].start && pos < links[i].end {
            return Some(&links[i]);
        }
        i += 1;
    }
    None
}

/// A character that may follow the first letter of a URL scheme.
pub open spec fn scheme_char(c: char) -> bool {
    is_ascii_alnum(c) || c == '+' || c == '-' || c == '.'
}

/// A URL scheme: an ASCII letter, then letters, digits, `+`, `-` or `.`.
pub open spec fn is_scheme(s: Seq<char>) -> bool {
    s.len() > 0 && is_ascii_alpha(s[0]) && forall|i: int| 0 <= i < s.len() ==> scheme_char(
        #[trigger] s[i],
    )
}

pub open spec fn authority_marker() -> Seq<char> {
    seq![':', '/', '/']
}

pub open spec fn mailto_prefix() -> Seq<char> {
    seq!['m', 'a', 'i', 'l', 't', 'o', ':']
}

pub open spec fn tel_prefix() -> Seq<char> {
    seq!['t', 'e', 'l', ':']
}

/// An external destination: after leading whitespace, a scheme followed by
/// its first `://`, or (in any ASCII case) a `mailto:` or `tel:` prefix.
pub open spec fn external(d: Seq<char>) -> bool {
    let t = trim_start(d);
    ||| exists|i: int| is_first_occurrence(t, authority_marker(), i) && is_scheme(t.take(i))
    ||| starts_with(lowered(t), mailto_prefix())
    ||| starts_with(lowered(t), tel_prefix())
}

fn scheme_ok(s: &[char], end: usize) -> (r: bool)
    requires
        end <= s@.len(),
    ensures
        r == is_scheme(s@.take(end as int)),
{
    if end == 0 || !is_ascii_alphabetic(s[0]) {
        return false;
    }
    let mut k: usize = 0;
    while k < end
        invariant
            end <= s@.len(),
            k <= end,
            forall|m: int| 0 <= m < k ==> scheme_char(#[trigger] s@[m]),
        decreases end - k,
    {
        let c = s[k];
        if !(is_ascii_alphabetic(c) || is_ascii_numeric(c) || c == '+' || c == '-' || c == '.') {
            assert(s@.take(end as int)[k as int] == c);
            return false;
        }
        k += 1;
    }
    assert forall|m: int| 0 <= m < end implies scheme_char(#[trigger] s@.take(end as int)[m]) by {
        assert(s@.take(end as int)[m] == s@[m]);
    }
    true
}

/// Whether the destination is an external link, to be opened by the system
/// rather than loaded as a note: a URL with an authority (`https://…`,
/// `file://…`) or a `mailto:` or `tel:` address. Plain note names, even ones
/// with a colon, are internal.
pub fn is_external_link(destination: &str) -> (r: bool)
    ensures
        r == external(destination@),
{
    let cs = chars_of(destination);
    let t = trimmed_start(cs.as_slice());
    let marker = chars_of("://");
    let mailto = chars_of("mailto:");
    let tel = chars_of("tel:");
    proof {
        reveal_strlit("://");
        reveal_strlit("mailto:");
        reveal_strlit("tel:");
        assert(marker@ =~= authority_marker());
        assert(mailto@ =~= mailto_prefix());
        assert(tel@ =~= tel_prefix());
    }
    if let Some(end) = find(t.as_slice(), marker.as_slice()) {
        if scheme_ok(t.as_slice(), end) {
            return true;
        }
        proof {
            assert forall|i: int| is_first_occurrence(t@, authority_marker(), i) implies i
                == end by {
                if i < end {
                } else if i > end {
                }
            }
        }
    }
    starts_with_ignoring_case(t.as_slice(), mailto.as_slice()) || starts_with_ignoring_case(
        t.as_slice(),
        tel.as_slice(),
    )
}

// ---------------------------------------------------------------------------
// Finding the links of a note
// ---------------------------------------------------------------------------

/// A link as a value: start, end, destination, text.
pub type LinkView = (usize, usize, Seq<char>, Seq<char>);

pub open spec fn link_view(l: Link) -> LinkView {
    (l.start, l.end, l.destination@, l.text@)
}

/// The Markdown links found in the first `i` parser events, the link still
/// open (its start and destination) and the text collected for it.
pub open spec fn scan(items: Seq<(MdEventView, usize, usize)>, i: int) -> (
    Seq<LinkView>,
    Option<(usize, Seq<char>)>,
    Seq<char>,
)
    decreases i,
{
    if i <= 0 {
        (seq![], None, seq![])
    } else {
        let prev = scan(items, i - 1);
        let it = items[i - 1];
        match it.0 {
            MdEventView::LinkStart(d) => (prev.0, Some((it.1, d)), seq![]),
            MdEventView::Text(t) => if prev.1 is Some {
                (prev.0, prev.1, prev.2 + t)
            } else {
                prev
            },
            MdEventView::LinkEnd => match prev.1 {
                Some(open) => (prev.0.push((open.0, it.2, open.1, prev.2)), None, prev.2),
                None => prev,
            },
            _ => prev,
        }
    }
}

/// How many characters other than `]` follow from index `i` on.
pub open spec fn unbracketed_run(t: Seq<char>, i: int) -> nat
    decreases t.len() - i,
{
    if 0 <= i < t.len() && t[i] != ']' {
        1 + unbracketed_run(t, i + 1)
    } else {
        0
    }
}

/// A wiki link starts at index `p`: `[[`, one or more characters other than
/// `]` (the page), then `]]`.
pub open spec fn wiki_link_at(t: Seq<char>, p: int) -> bool {
    let n = unbracketed_run(t, p + 2);
    &&& 0 <= p
    &&& p + 3 + n < t.len()
    &&& t[p] == '[' && t[p + 1] == '['
    &&& n > 0
    &&& t[p + 2 + n] == ']' && t[p + 3 + n] == ']'
}

/// The wiki links from index `i` on, left to right and not overlapping, as
/// (start, end, page) in character indices: the leftmost one, then those
/// after its end.
pub open spec fn wiki_scan(t: Seq<char>, i: int) -> Seq<(int, int, Seq<char>)>
    decreases t.len() - i,
{
    if i < 0 || i >= t.len() {
        Seq::empty()
    } else if wiki_link_at(t, i) {
        let n = unbracketed_run(t, i + 2);
        seq![(i, i + 4 + n, t.subrange(i + 2, i + 2 + n))] + wiki_scan(t, i + 4 + n)
    } else {
        wiki_scan(t, i + 1)
    }
}

/// The byte offset in UTF-8 of the character index `i`.
pub open spec fn byte_offset(t: Seq<char>, i: int) -> int {
    encode_utf8(t.take(i)).len() as int
}

/// The wiki-style `[[page]]` links of a text, with their byte ranges and
/// pages.
pub open spec fn wiki_links(text: Seq<char>) -> Seq<(usize, usize, Seq<char>)> {
    wiki_scan(text, 0).map_values(|m: (int, int, Seq<char>)| in_bytes(text, m))
}

/// A link found at character indices, with its range in bytes.
pub open spec fn in_bytes(text: Seq<char>, m: (int, int, Seq<char>)) -> (usize, usize, Seq<char>) {
    (byte_offset(text, m.0) as usize, byte_offset(text, m.1) as usize, m.2)
}

/// A found link as values.
pub open spec fn match_view(m: (usize, usize, String)) -> (usize, usize, Seq<char>) {
    (m.0, m.1, m.2@)
}

/// How many bytes UTF-8 takes for a character.
fn utf8_width(c: char) -> (r: usize)
    ensures
        r as int == encode_scalar(c as u32).len(),
{
    proof {
        char_is_scalar(c);
    }
    let u = c as u32;
    if u < 0x80 {
        1
    } else if u < 0x800 {
        2
    } else if u < 0x10000 {
        3
    } else {
        4
    }
}

/// The UTF-8 byte offset of every character index of a text, the end
/// included.
fn byte_offsets(text: &str, t: &Vec<char>) -> (r: Vec<usize>)
    requires
        t@ == text@,
    ensures
        r@.len() == t@.len() + 1,
        forall|i: int| 0 <= i <= t@.len() ==> #[trigger] r@[i] as int == byte_offset(t@, i),
{
    let bytes = text.as_bytes();
    let total = bytes.len();
    let mut out: Vec<usize> = Vec::new();
    let mut cur: usize = 0;
    let mut i: usize = 0;
    assert(t@.take(0) =~= Seq::<char>::empty());
    while i < t.len()
        invariant
            t@ == text@,
            bytes@ == encode_utf8(t@),
            total == bytes@.len(),
            i <= t@.len(),
            out@.len() == i,
            cur as int == byte_offset(t@, i as int),
            forall|k: int| 0 <= k < i ==> #[trigger] out@[k] as int == byte_offset(t@, k),
        decreases t.len() - i,
    {
        out.push(cur);
        let w = utf8_width(t[i]);
        proof {
            let a = t@.take(i as int);
            let b = t@.take(i + 1);
            assert(b =~= a + seq![t@[i as int]]);
            crate::gui::percent::lemma_encode_utf8_concat(a, seq![t@[i as int]]);
            let one = seq![t@[i as int]];
            assert(one.drop_first() =~= Seq::<char>::empty());
            assert(encode_utf8(one.drop_first()) =~= Seq::<u8>::empty());
            assert(encode_utf8(one) =~= encode_scalar(t@[i as int] as u32));
            assert(t@ =~= b + t@.skip(i + 1));
            crate::gui::percent::lemma_encode_utf8_concat(b, t@.skip(i + 1));
        }
        cur = cur + w;
        i += 1;
    }
    out.push(cur);
    out
}

/// Where the run of characters other than `]` that starts at `from` ends.
fn unbracketed_end(t: &Vec<char>, from: usize) -> (r: usize)
    requires
        from <= t@.len(),
    ensures
        r as int == from + unbracketed_run(t@, from as int),
        r <= t@.len(),
{
    let mut j = from;
    while j < t.len() && t[j] != ']'
        invariant
            from <= j <= t@.len(),
            unbracketed_run(t@, from as int) == (j - from) + unbracketed_run(t@, j as int),
        decreases t.len() - j,
    {
        j += 1;
    }
    j
}

/// The wiki-style `[[page]]` links of a text, left to right and not
/// overlapping (see `wiki_scan`): each with its byte range and page.
fn wiki_link_matches(text: &str) -> (r: Vec<(usize, usize, String)>)
    ensures
        r@.map_values(|m: (usize, usize, String)| match_view(m)) == wiki_links(text@),
{
    let t = chars_of(text);
    let n = t.len();
    let offs = byte_offsets(text, &t);
    let mut out: Vec<(usize, usize, String)> = Vec::new();
    let ghost mut done: Seq<(int, int, Seq<char>)> = Seq::empty();
    let mut i: usize = 0;
    while i < n
        invariant
            n == t@.len(),
            t@ == text@,
            offs@.len() == n + 1,
            forall|k: int| 0 <= k <= n ==> #[trigger] offs@[k] as int == byte_offset(t@, k),
            i <= n,
            wiki_scan(t@, 0) == done + wiki_scan(t@, i as int),
            out@.map_values(|m: (usize, usize, String)| match_view(m)) == done.map_values(
                |m: (int, int, Seq<char>)| in_bytes(text@, m),
            ),
        decreases n - i,
    {
        let mut found = false;
        if t[i] == '[' && i + 1 < n && t[i + 1] == '[' {
            let end = unbracketed_end(&t, i + 2);
            let run = end - (i + 2);
            if run > 0 && end < n && end + 1 < n && t[end] == ']' && t[end + 1] == ']' {
                assert(wiki_link_at(t@, i as int));
                let page = string_of(slice(t.as_slice(), i + 2, end).as_slice());
                let item = (offs[i], offs[end + 2], page);
                let ghost m = (i as int, end + 2, t@.subrange(i + 2, end as int));
                proof {
                    assert(offs@[i as int] as int == byte_offset(t@, i as int));
                    assert(offs@[end + 2] as int == byte_offset(t@, end + 2));
                    assert(page@ == t@.subrange(i + 2, end as int));
                    assert(in_bytes(text@, m) == match_view(item));
                    assert(out@.push(item).map_values(|m: (usize, usize, String)| match_view(m))
                        =~= out@.map_values(|m: (usize, usize, String)| match_view(m)).push(
                        match_view(item),
                    ));
                    assert((done.push(m)).map_values(|m: (int, int, Seq<char>)| in_bytes(text@, m))
                        =~= done.map_values(|m: (int, int, Seq<char>)| in_bytes(text@, m)).push(
                        in_bytes(text@, m),
                    ));
                    assert(done + wiki_scan(t@, i as int) =~= done.push(m) + wiki_scan(t@, end + 2));
                    done = done.push(m);
                }
                out.push(item);
                i = end + 2;
                found = true;
            }
        }
        if !found {
            assert(!wiki_link_at(t@, i as int));
            i += 1;
        }
    }
    assert(done + wiki_scan(t@, i as int) =~= done);
    out
}

/// All links of a text in the order they were found: the Markdown links,
/// then the wiki links.
pub open spec fn found_links(text: Seq<char>) -> Seq<LinkView> {
    let items = markdown_items(text);
    scan(items, items.len() as int).0 + wiki_links(text).map_values(
        |m: (usize, usize, Seq<char>)| (m.0, m.1, m.2, m.2),
    )
}

/// Where each link starts.
pub open spec fn starts_of(ls: Seq<LinkView>) -> Seq<usize> {
    ls.map_values(|l: LinkView| l.0)
}

/// The links at the positions `order`, in that order.
pub open spec fn picked(ls: Seq<LinkView>, order: Seq<usize>) -> Seq<LinkView> {
    order.map_values(|k: usize| ls[k as int])
}

/// `order` lists the positions of `starts` once each, by start and, for equal
/// starts, by position.
pub open spec fn by_start(starts: Seq<usize>, order: Seq<usize>) -> bool {
    &&& order.len() == starts.len()
    &&& forall|k: usize| k < starts.len() ==> #[trigger] order.contains(k)
    &&& forall|p: int| 0 <= p < order.len() ==> #[trigger] order[p] < starts.len()
    &&& forall|p: int, q: int|
        0 <= p < q < order.len() ==> (starts[#[trigger] order[p] as int] < starts[
            #[trigger] order[q] as int] || (starts[order[p] as int] == starts[order[q] as int]
            && order[p] < order[q]))
}

/// Positions sorted by their start, ties kept in position order.
fn order_by_start(starts: &Vec<usize>) -> (r: Vec<usize>)
    ensures
        by_start(starts@, r@),
{
    let mut order: Vec<usize> = Vec::new();
    let mut n: usize = 0;
    while n < starts.len()
        invariant
            n <= starts@.len(),
            order@.len() == n,
            forall|k: usize| k < n ==> #[trigger] order@.contains(k),
            forall|p: int| 0 <= p < order@.len() ==> #[trigger] order@[p] < n,
            forall|p: int, q: int|
                0 <= p < q < order@.len() ==> (starts@[#[trigger] order@[p] as int] < starts@[
                    #[trigger] order@[q] as int] || (starts@[order@[p] as int] == starts@[
                    order@[q] as int] && order@[p] < order@[q])),
        decreases starts.len() - n,
    {
        let mut p: usize = 0;
        while p < order.len() && starts[order[p]] <= starts[n]
            invariant
                n < starts@.len(),
                p <= order@.len(),
                forall|t: int| 0 <= t < order@.len() ==> #[trigger] order@[t] < n,
                forall|t: int| 0 <= t < p ==> starts@[#[trigger] order@[t] as int] <= starts@[n as int],
            decreases order.len() - p,
        {
            p += 1;
        }
        let ghost before = order@;
        order.insert(p, n);
        proof {
            assert forall|k: usize| k < n + 1 implies #[trigger] order@.contains(k) by {
                if k < n {
                    assert(before.contains(k));
                    let w = choose|w: int| 0 <= w < before.len() && before[w] == k;
                    if w < p {
                        assert(order@[w] == before[w]);
                    } else {
                        assert(order@[w + 1] == before[w]);
                    }
                } else {
                    assert(order@[p as int] == n);
                }
            }
            assert forall|a: int, b: int| 0 <= a < b < order@.len() implies (starts@[
                #[trigger] order@[a] as int] < starts@[#[trigger] order@[b] as int] || (
            starts@[order@[a] as int] == starts@[order@[b] as int] && order@[a] < order@[b])) by {
                if b < p {
                    assert(order@[a] == before[a] && order@[b] == before[b]);
                } else if a > p {
                    assert(order@[a] == before[a - 1] && order@[b] == before[b - 1]);
                } else if a == p {
                    assert(order@[b] == before[b - 1]);
                    assert(starts@[before[p as int] as int] > starts@[n as int]);
                    if b - 1 > p {
                        assert(starts@[before[p as int] as int] <= starts@[before[b - 1] as int]);
                    }
                } else if b == p {
                    assert(order@[a] == before[a]);
                    assert(before[a] < n);
                } else {
                    assert(order@[a] == before[a] && order@[b] == before[b - 1]);
                }
            }
        }
        n += 1;
    }
    order
}

/// Parse Markdown content and extract its links with their byte positions:
/// Markdown links (with the text inside them) and wiki-style `[[page]]`
/// links, sorted by where they start (ties in the order found).
pub fn extract_links(content: &str) -> (r: Vec<Link>)
    ensures
        exists|order: Seq<usize>|
            #[trigger] by_start(starts_of(found_links(content@)), order) && r@.map_values(
                |l: Link| link_view(l),
            ) == picked(found_links(content@), order),
{
    let items = markdown_events(content);
    let ghost iv = item_views(items@);
    let mut links: Vec<Link> = Vec::new();
    let mut current: Option<(usize, String)> = None;
    let mut link_text: Vec<char> = Vec::new();
    let mut i: usize = 0;
    while i < items.len()
        invariant
            iv == item_views(items@),
            iv == markdown_items(content@),
            i <= items@.len(),
            links@.map_values(|l: Link| link_view(l)) == scan(iv, i as int).0,
            match current {
                Some(c) => scan(iv, i as int).1 == Some((c.0, c.1@)),
                None => scan(iv, i as int).1 is None,
            },
            link_text@ == scan(iv, i as int).2,
        decreases items.len() - i,
    {
        let it = &items[i];
        assert(iv[i as int] == (crate::gui::markdown::event_view(it.event), it.start, it.end));
        let ghost prev_links = links@;
        match &it.event {
            MdEvent::LinkStart(d) => {
                current = Some((it.start, d.clone()));
                link_text = Vec::new();
                assert(link_text@ =~= Seq::<char>::empty());
            },
            MdEvent::Text(t) => {
                if current.is_some() {
                    let tc = crate::text::chars_of(t.as_str());
                    crate::text::push_all(&mut link_text, tc.as_slice());
                }
            },
            MdEvent::LinkEnd => {
                match current {
                    Some((start, dest)) => {
                        links.push(
                            Link {
                                start,
                                end: it.end,
                                destination: dest,
                                text: crate::text::string_of(link_text.as_slice()),
                            },
                        );
                        assert(links@.map_values(|l: Link| link_view(l)) =~= prev_links.map_values(
                            |l: Link| link_view(l),
                        ).push(scan(iv, i + 1).0.last()));
                    },
                    None => {},
                }
                current = None;
            },
            _ => {},
        }
        i += 1;
    }
    let wiki = wiki_link_matches(content);
    let mut j: usize = 0;
    let ghost md = links@.map_values(|l: Link| link_view(l));
    let ghost wv = wiki@.map_values(|m: (usize, usize, String)| (m.0, m.1, m.2@));
    while j < wiki.len()
        invariant
            j <= wiki@.len(),
            wv == wiki_links(content@),
            wv == wiki@.map_values(|m: (usize, usize, String)| (m.0, m.1, m.2@)),
            links@.map_values(|l: Link| link_view(l)) == md + wv.take(j as int).map_values(
                |m: (usize, usize, Seq<char>)| (m.0, m.1, m.2, m.2),
            ),
        decreases wiki.len() - j,
    {
        let (s, e, page) = &wiki[j];
        let ghost prev = links@;
        let item = Link { start: *s, end: *e, destination: page.clone(), text: page.clone() };
        assert(link_view(item) == (wv[j as int].0, wv[j as int].1, wv[j as int].2, wv[j as int].2));
        links.push(item);
        assert(links@.map_values(|l: Link| link_view(l)) =~= prev.map_values(|l: Link| link_view(l)).push(
            link_view(item),
        ));
        assert(wv.take(j + 1) =~= wv.take(j as int).push(wv[j as int]));
        assert(links@.map_values(|l: Link| link_view(l)) =~= md + wv.take(j + 1).map_values(
            |m: (usize, usize, Seq<char>)| (m.0, m.1, m.2, m.2),
        ));
        j += 1;
    }
    assert(wv.take(j as int) =~= wv);
    let ghost all = links@.map_values(|l: Link| link_view(l));
    assert(all == found_links(content@));
    let mut starts: Vec<usize> = Vec::new();
    let mut k: usize = 0;
    while k < links.len()
        invariant
            k <= links@.len(),
            starts@ == links@.take(k as int).map_values(|l: Link| l.start),
        decreases links.len() - k,
    {
        starts.push(links[k].start);
        assert(links@.take(k + 1).map_values(|l: Link| l.start) =~= starts@);
        k += 1;
    }
    assert(links@.take(k as int) =~= links@);
    assert(starts@ =~= starts_of(all));
    let order = order_by_start(&starts);
    let mut out: Vec<Link> = Vec::new();
    let mut q: usize = 0;
    while q < order.len()
        invariant
            q <= order@.len(),
            by_start(starts@, order@),
            starts@.len() == links@.len(),
            all == links@.map_values(|l: Link| link_view(l)),
            out@.map_values(|l: Link| link_view(l)) == picked(all, order@.take(q as int)),
        decreases order.len() - q,
    {
        let l = &links[order[q]];
        let ghost prev = out@;
        let item = Link {
            start: l.start,
            end: l.end,
            destination: l.destination.clone(),
            text: l.text.clone(),
        };
        assert(link_view(item) == all[order@[q as int] as int]);
        out.push(item);
        assert(out@.map_values(|l: Link| link_view(l)) =~= prev.map_values(|l: Link| link_view(l)).push(
            link_view(item),
        ));
        assert(order@.take(q + 1) =~= order@.take(q as int).push(order@[q as int]));
        assert(out@.map_values(|l: Link| link_view(l)) =~= picked(all, order@.take(q + 1)));
        q += 1;
    }
    assert(order@.take(q as int) =~= order@);
    assert(by_start(starts_of(found_links(content@)), order@));
    out
}

} // verus!
