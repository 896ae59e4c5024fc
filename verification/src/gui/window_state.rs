//! Where the desktop application keeps its window state and per-wiki files,
//! and the window geometry it remembers.
//!
//! The application's local data directory comes from the platform; the
//! caller finds it and reads and writes the files.
use vstd::prelude::*;
use crate::document::{join_path, path_join};
use crate::text::{chars_of, opt_view, push_all, string_of};

verus! {

pub const QUALIFIER: &'static str = "net.roblillack";
pub const ORGANIZATION: &'static str = "Piki";
pub const APPLICATION: &'static str = "piki-gui";
pub const STATE_FILE_NAME: &'static str = "window_state.toml";

/// The remembered window position and size.
#[derive(Debug, Clone, Default)]
pub struct WindowGeometry {
    pub x: i32,
    pub y: i32,
    pub width: i32,
    pub height: i32,
    /// Whether fullscreen mode is active.
    pub fullscreen: bool,
}

/// The file `name` in the application's local data directory `data_dir`, if
/// the platform has one.
pub open spec fn data_file_of(data_dir: Option<Seq<char>>, name: Seq<char>) -> Option<Seq<char>> {
    match data_dir {
        Some(d) => Some(path_join(d, name)),
        None => None,
    }
}

pub open spec fn opt_str(o: Option<&str>) -> Option<Seq<char>> {
    match o {
        Some(s) => Some(s@),
        None => None,
    }
}

/// The file `name` in the application's local data directory.
pub fn data_file(data_dir: Option<&str>, name: &str) -> (r: Option<String>)
    ensures
        opt_view(r) == data_file_of(opt_str(data_dir), name@),
{
    match data_dir {
        Some(d) => {
            let dv = chars_of(d);
            let nv = chars_of(name);
            let joined = join_path(dv.as_slice(), nv.as_slice());
            Some(string_of(joined.as_slice()))
        },
        None => None,
    }
}

/// The window-state file.
pub fn state_file_path(data_dir: Option<&str>) -> (r: Option<String>)
    ensures
        opt_view(r) == data_file_of(opt_str(data_dir), STATE_FILE_NAME@),
{
    data_file(data_dir, STATE_FILE_NAME)
}

/// The lower-case hex digit for `n < 16`.
pub open spec fn hex_char_of(n: nat) -> char {
    if n < 10 {
        ((48 + n) as u32) as char
    } else {
        ((87 + n) as u32) as char
    }
}

/// The last `k` hex digits of `n`, most significant first.
pub open spec fn hex_digits(n: nat, k: nat) -> Seq<char>
    decreases k,
{
    if k == 0 {
        seq![]
    } else {
        hex_digits(n / 16, (k - 1) as nat) + seq![hex_char_of(n % 16)]
    }
}

/// The name of a wiki's recency file: `recent_notes_` and the 16 hex digits
/// of the hash of the wiki's path, then `.toml`.
pub open spec fn recent_notes_name(hash: u64) -> Seq<char> {
    "recent_notes_"@ + hex_digits(hash as nat, 16) + ".toml"@
}

fn hex_digit_char(n: u64) -> (c: char)
    requires
        n < 16,
    ensures
        c == hex_char_of(n as nat),
{
    if n < 10 {
        crate::text::char_from_ascii((48 + n) as u32)
    } else {
        crate::text::char_from_ascii((87 + n) as u32)
    }
}

/// The name of the recency file of the wiki whose path hashes to `hash`.
pub fn recent_notes_file_name(hash: u64) -> (r: String)
    ensures
        r@ == recent_notes_name(hash),
{
    let mut digits: Vec<char> = Vec::new();
    let mut n = hash;
    let mut k: usize = 0;
    assert(pow16(0) == 1);
    assert(hash as nat / 1 == hash as nat);
    assert(hex_digits(hash as nat, 16) =~= hex_digits(n as nat, 16) + digits@);
    while k < 16
        invariant
            k <= 16,
            n as nat == hash as nat / crate::gui::window_state::pow16(k as nat),
            hex_digits(hash as nat, 16) == hex_digits(n as nat, (16 - k) as nat) + digits@,
        decreases 16 - k,
    {
        let d = hex_digit_char(n % 16);
        let ghost before = digits@;
        let mut next: Vec<char> = Vec::new();
        next.push(d);
        push_all(&mut next, digits.as_slice());
        digits = next;
        proof {
            lemma_div_pow16(hash as nat, k as nat);
            assert(hex_digits(n as nat, (16 - k) as nat) == hex_digits(
                (n / 16) as nat,
                (16 - k - 1) as nat,
            ) + seq![hex_char_of((n % 16) as nat)]);
            assert(digits@ =~= seq![d] + before);
        }
        n = n / 16;
        k += 1;
    }
    let mut out = chars_of("recent_notes_");
    push_all(&mut out, digits.as_slice());
    let ext = chars_of(".toml");
    push_all(&mut out, ext.as_slice());
    assert(hex_digits(n as nat, 0) =~= Seq::<char>::empty());
    assert(digits@ =~= hex_digits(hash as nat, 16));
    string_of(out.as_slice())
}

pub open spec fn pow16(k: nat) -> nat
    decreases k,
{
    if k == 0 {
        1
    } else {
        16 * pow16((k - 1) as nat)
    }
}

proof fn lemma_div_pow16(h: nat, k: nat)
    ensures
        h / pow16(k) / 16 == h / pow16(k + 1),
        pow16(k) > 0,
    decreases k,
{
    if k > 0 {
        lemma_div_pow16(h, (k - 1) as nat);
    }
    assert(pow16(k + 1) == 16 * pow16(k));
    vstd::arithmetic::div_mod::lemma_div_denominator(h as int, pow16(k) as int, 16);
    assert(pow16(k) * 16 == 16 * pow16(k)) by (nonlinear_arith);
}

/// The recency file of the wiki whose path hashes to `hash`, in the
/// application's local data directory.
pub fn recent_notes_file(data_dir: Option<&str>, hash: u64) -> (r: Option<String>)
    ensures
        opt_view(r) == data_file_of(opt_str(data_dir), recent_notes_name(hash)),
{
    let name = recent_notes_file_name(hash);
    data_file(data_dir, name.as_str())
}

} // verus!
