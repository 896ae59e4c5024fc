//! Handling of characters that have no printable form.
//!
//! A control character shows up nowhere yet still takes space. Two defenses
//! live here so "not printable" is defined once: `sanitize_key_text` keeps
//! such a character from entering a document by keystroke, and `printable`
//! makes any that is already there visible wherever the document is shown.
use vstd::prelude::*;
use std::borrow::Cow;
use crate::text::{char_from_u32, chars_of, is_control, is_ctrl, string_of};

verus! {

/// The visible stand-in for a character without a printable form: the
/// Unicode Control Picture (U+2400 + code) for U+0000..U+001F except `\n`
/// and `\t`, `␡` for U+007F, `�` for the C1 controls U+0080..U+009F.
pub open spec fn picture_of(ch: char) -> Option<char> {
    let u = ch as u32;
    if ch == '\n' || ch == '\t' {
        None
    } else if u <= 0x1F {
        Some((0x2400 + u) as char)
    } else if u == 0x7F {
        Some('\u{2421}')
    } else if 0x80 <= u <= 0x9F {
        Some('\u{fffd}')
    } else {
        None
    }
}

/// A visible stand-in for a character that has no printable form, or `None`
/// if the character should be shown as-is. `\n` and `\t` are real layout
/// whitespace and are left alone.
pub fn control_picture(ch: char) -> (r: Option<char>)
    ensures
        r == picture_of(ch),
{
    let u = ch as u32;
    if ch == '\n' || ch == '\t' {
        None
    } else if u <= 0x1F {
        char_from_u32(0x2400 + u)
    } else if u == 0x7F {
        Some('\u{2421}')
    } else if 0x80 <= u && u <= 0x9F {
        Some('\u{fffd}')
    } else {
        None
    }
}

/// What is shown for one character.
pub open spec fn shown(ch: char) -> char {
    match picture_of(ch) {
        Some(p) => p,
        None => ch,
    }
}

/// What is shown for a text: one character for each character.
pub open spec fn shown_text(s: Seq<char>) -> Seq<char> {
    s.map_values(|c: char| shown(c))
}

/// Maps `text` to what should actually be shown, substituting the control
/// picture of every non-printable character; borrows unchanged when there is
/// nothing to substitute. One char in, one char out.
pub fn printable(text: &str) -> (r: Cow<'_, str>)
    ensures
        r@ == shown_text(text@),
        (r matches Cow::Borrowed(_)) <==> forall|i: int|
            0 <= i < text@.len() ==> picture_of(#[trigger] text@[i]) is None,
{
    let v = chars_of(text);
    let mut out: Vec<char> = Vec::new();
    let mut changed = false;
    let mut i: usize = 0;
    while i < v.len()
        invariant
            i <= v@.len(),
            v@ == text@,
            out@ == shown_text(v@.subrange(0, i as int)),
            changed <==> exists|j: int| 0 <= j < i && picture_of(#[trigger] v@[j]) is Some,
        decreases v.len() - i,
    {
        let c = v[i];
        match control_picture(c) {
            Some(p) => {
                out.push(p);
                changed = true;
            },
            None => {
                out.push(c);
            },
        }
        i += 1;
        assert(out@ =~= shown_text(v@.subrange(0, i as int)));
    }
    assert(v@.subrange(0, v@.len() as int) =~= v@);
    if !changed {
        assert(shown_text(text@) =~= text@);
        Cow::Borrowed(text)
    } else {
        Cow::Owned(string_of(out.as_slice()))
    }
}

/// A character that must never reach the document from a key event: a
/// control character, or one of AppKit's function-key code points
/// (U+F700..U+F8FF).
pub open spec fn dropped_from_keys(ch: char) -> bool {
    is_ctrl(ch) || (0xF700 <= ch as u32 <= 0xF8FF)
}

/// The characters of `s` that are kept, in order.
pub open spec fn kept_key_text(s: Seq<char>) -> Seq<char> {
    s.filter(|c: char| !dropped_from_keys(c))
}

/// Strips the characters that must never reach the document from a key
/// event's text: control characters (line and tab ones too) and AppKit
/// function-key code points.
pub fn sanitize_key_text(text: &str) -> (r: String)
    ensures
        r@ == kept_key_text(text@),
{
    let v = chars_of(text);
    let mut out: Vec<char> = Vec::new();
    let mut i: usize = 0;
    assert(v@.subrange(0, 0).filter(|c: char| !dropped_from_keys(c)) =~= Seq::<char>::empty());
    while i < v.len()
        invariant
            i <= v@.len(),
            v@ == text@,
            out@ == v@.subrange(0, i as int).filter(|c: char| !dropped_from_keys(c)),
        decreases v.len() - i,
    {
        let c = v[i];
        let u = c as u32;
        proof {
            reveal_with_fuel(Seq::<char>::filter, 1);
            assert(v@.subrange(0, i + 1).drop_last() =~= v@.subrange(0, i as int));
        }
        if !is_control(c) && !(0xF700 <= u && u <= 0xF8FF) {
            out.push(c);
        }
        i += 1;
    }
    assert(v@.subrange(0, v@.len() as int) =~= v@);
    string_of(out.as_slice())
}

} // verus!
