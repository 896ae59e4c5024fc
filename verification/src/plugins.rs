//! Generated pages, viewed as `!name`: `!index` lists every note, `!todo`
//! every open checklist item (`- [ ]` or `* [ ]`) with the note it stands in.
use vstd::prelude::*;
use crate::git::plan::{sorted_set_of, sorted_unique};
use crate::text::{
    chars_of, has_prefix, lines, lines_of, push_all, push_str, string_of, string_views,
    starts_with, trim_start, trimmed_start, views,
};

verus! {

/// The page names `!index` and `!todo` stand for.
pub const INDEX_PLUGIN: &'static str = "index";

pub const TODO_PLUGIN: &'static str = "todo";

/// A Markdown link to a note: `[name](<name.md>)`.
pub open spec fn note_link(name: Seq<char>) -> Seq<char> {
    seq!['['] + name + "](<"@ + name + ".md>)"@
}

/// One list line per note, in the order given.
pub open spec fn index_lines(names: Seq<Seq<char>>) -> Seq<char>
    decreases names.len(),
{
    if names.len() == 0 {
        Seq::empty()
    } else {
        index_lines(names.drop_last()) + "- "@ + note_link(names.last()) + seq!['\n']
    }
}

/// The index page of the notes `names`, listed in the order given.
pub open spec fn index_markdown(names: Seq<Seq<char>>) -> Seq<char> {
    "# Index\n\n"@ + index_lines(names)
}

fn link_chars(out: &mut Vec<char>, name: &str)
    ensures
        final(out)@ == old(out)@ + note_link(name@),
{
    out.push('[');
    push_str(out, name);
    push_str(out, "](<");
    push_str(out, name);
    push_str(out, ".md>)");
}

/// The `!index` page: every note, sorted by name and listed once, each a
/// link to the note.
pub fn index_page(names: &[String]) -> (r: String)
    ensures
        exists|sorted: Seq<Seq<char>>|
            sorted_set_of(string_views(names@), sorted) && r@ == index_markdown(sorted),
{
    let sorted = sorted_unique(names);
    let ghost sv = string_views(sorted@);
    let mut out = chars_of("# Index\n\n");
    let mut i: usize = 0;
    assert(sv.take(0) =~= Seq::<Seq<char>>::empty());
    while i < sorted.len()
        invariant
            i <= sorted@.len(),
            sv == string_views(sorted@),
            out@ == "# Index\n\n"@ + index_lines(sv.take(i as int)),
        decreases sorted.len() - i,
    {
        assert(sv.take(i + 1).drop_last() =~= sv.take(i as int));
        assert(sv[i as int] == sorted@[i as int]@);
        push_str(&mut out, "- ");
        link_chars(&mut out, sorted[i].as_str());
        out.push('\n');
        i += 1;
    }
    assert(sv.take(sorted@.len() as int) =~= sv);
    let r = string_of(out.as_slice());
    assert(sorted_set_of(string_views(names@), sv) && r@ == index_markdown(sv));
    r
}

/// A line (without leading whitespace) that is an open checklist item.
pub open spec fn is_open_item(line: Seq<char>) -> bool {
    starts_with(line, "- [ ]"@) || starts_with(line, "* [ ]"@)
}

/// The open checklist items among the lines, without leading whitespace.
pub open spec fn open_items(ls: Seq<Seq<char>>) -> Seq<Seq<char>>
    decreases ls.len(),
{
    if ls.len() == 0 {
        Seq::empty()
    } else {
        let prev = open_items(ls.drop_last());
        let t = trim_start(ls.last());
        if is_open_item(t) {
            prev.push(t)
        } else {
            prev
        }
    }
}

/// The items, one per line.
pub open spec fn item_lines(items: Seq<Seq<char>>) -> Seq<char>
    decreases items.len(),
{
    if items.len() == 0 {
        Seq::empty()
    } else {
        item_lines(items.drop_last()) + items.last() + seq!['\n']
    }
}

/// A note's section of the todo page: its link as a heading, then its open
/// items; nothing for a note without open items.
pub open spec fn todo_section(name: Seq<char>, content: Seq<char>) -> Seq<char> {
    let items = open_items(lines(content));
    if items.len() == 0 {
        Seq::empty()
    } else {
        "## "@ + note_link(name) + "\n\n"@ + item_lines(items) + seq!['\n']
    }
}

/// The sections of the notes (name, content), in the order given.
pub open spec fn todo_sections(notes: Seq<(String, String)>) -> Seq<char>
    decreases notes.len(),
{
    if notes.len() == 0 {
        Seq::empty()
    } else {
        todo_sections(notes.drop_last()) + todo_section(notes.last().0@, notes.last().1@)
    }
}

/// The todo page of the notes (name, content), in the order given.
pub open spec fn todo_markdown(notes: Seq<(String, String)>) -> Seq<char> {
    "# Todo\n\n"@ + todo_sections(notes)
}

/// The open checklist items of a note's text.
fn open_items_of(content: &str) -> (r: Vec<Vec<char>>)
    ensures
        views(r@) == open_items(lines(content@)),
{
    let c = chars_of(content);
    let ls = lines_of(c.as_slice());
    let ghost lv = views(ls@);
    let dash = chars_of("- [ ]");
    let star = chars_of("* [ ]");
    let mut out: Vec<Vec<char>> = Vec::new();
    let mut i: usize = 0;
    assert(lv.take(0) =~= Seq::<Seq<char>>::empty());
    while i < ls.len()
        invariant
            i <= ls@.len(),
            lv == views(ls@),
            lv == lines(content@),
            dash@ == "- [ ]"@,
            star@ == "* [ ]"@,
            views(out@) == open_items(lv.take(i as int)),
        decreases ls.len() - i,
    {
        assert(lv.take(i + 1).drop_last() =~= lv.take(i as int));
        assert(lv.take(i + 1).last() == ls@[i as int]@);
        let t = trimmed_start(ls[i].as_slice());
        if has_prefix(t.as_slice(), dash.as_slice()) || has_prefix(t.as_slice(), star.as_slice()) {
            let ghost before = views(out@);
            out.push(t);
            assert(views(out@) =~= before.push(t@));
        }
        i += 1;
    }
    assert(lv.take(ls@.len() as int) =~= lv);
    out
}

/// The `!todo` page: for each note (name, content), in the order given, the
/// note's link as a heading and its open checklist items.
pub fn todo_page(notes: &[(String, String)]) -> (r: String)
    ensures
        r@ == todo_markdown(notes@),
{
    let mut out = chars_of("# Todo\n\n");
    let mut i: usize = 0;
    assert(notes@.take(0) =~= Seq::<(String, String)>::empty());
    while i < notes.len()
        invariant
            i <= notes@.len(),
            out@ == "# Todo\n\n"@ + todo_sections(notes@.take(i as int)),
        decreases notes.len() - i,
    {
        assert(notes@.take(i + 1).drop_last() =~= notes@.take(i as int));
        assert(notes@.take(i + 1).last() == notes@[i as int]);
        let (name, content) = &notes[i];
        let items = open_items_of(content.as_str());
        let ghost iv = views(items@);
        let ghost start = out@;
        if items.len() > 0 {
            push_str(&mut out, "## ");
            link_chars(&mut out, name.as_str());
            push_str(&mut out, "\n\n");
            let ghost head = out@;
            let mut j: usize = 0;
            assert(iv.take(0) =~= Seq::<Seq<char>>::empty());
            while j < items.len()
                invariant
                    j <= items@.len(),
                    iv == views(items@),
                    out@ == head + item_lines(iv.take(j as int)),
                decreases items.len() - j,
            {
                assert(iv.take(j + 1).drop_last() =~= iv.take(j as int));
                assert(iv[j as int] == items@[j as int]@);
                push_all(&mut out, items[j].as_slice());
                out.push('\n');
                j += 1;
            }
            assert(iv.take(items@.len() as int) =~= iv);
            out.push('\n');
        }
        assert(out@ =~= start + todo_section(name@, content@));
        i += 1;
    }
    assert(notes@.take(notes@.len() as int) =~= notes@);
    string_of(out.as_slice())
}

} // verus!
