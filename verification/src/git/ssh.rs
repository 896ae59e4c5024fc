//! Remote URLs: `ssh://` and `file://` addresses of other notes directories,
//! the shorthand forms people type for them, and the shell quoting used when
//! the remote command line is built.
use vstd::prelude::*;
use crate::text::{
    chars_of, decimal, decimal_of, find, find_char, first_index_of, has_char, has_prefix,
    is_ascii_alpha, is_ascii_alphabetic, is_whitespace, is_ws, last_index_of, parse_u16,
    parsed_u16, push_all, push_str, replace_all, replace_char, rfind_char, slice, starts_with,
    string_of, trim, trimmed, contains, occurs_at, lemma_trim_ends, lemma_trim_idempotent,
    lemma_trim_of_unpadded, lemma_first_index_of, lemma_last_index_of, lemma_first_index_is,
    lemma_last_index_is, lemma_decimal_digits, all_digits, is_ascii_digit,
};

verus! {

/// Default location of the notes directory on a remote machine, relative to
/// the remote user's home directory.
pub const DEFAULT_REMOTE_PATH: &'static str = "~/.piki";

/// The parts of an `ssh://[user@]host[:port]/path` URL.
#[derive(Debug, Clone, PartialEq, Eq)]
pub struct SshUrl {
    pub user: Option<String>,
    pub host: String,
    pub port: Option<u16>,
    /// Path on the remote machine. `ssh://host/~/notes` yields `~/notes`.
    pub path: String,
}

/// The value of an `SshUrl`.
pub struct SshUrlView {
    pub user: Option<Seq<char>>,
    pub host: Seq<char>,
    pub port: Option<u16>,
    pub path: Seq<char>,
}

impl View for SshUrl {
    type V = SshUrlView;

    open spec fn view(&self) -> SshUrlView {
        SshUrlView {
            user: match self.user {
                Some(u) => Some(u@),
                None => None,
            },
            host: self.host@,
            port: self.port,
            path: self.path@,
        }
    }
}

pub open spec fn ssh_prefix() -> Seq<char> {
    "ssh://"@
}

pub open spec fn file_prefix() -> Seq<char> {
    "file://"@
}

/// The text after a known prefix.
pub open spec fn after(s: Seq<char>, p: Seq<char>) -> Seq<char> {
    s.subrange(p.len() as int, s.len() as int)
}

/// The authority part of what follows `ssh://`: up to the first `/`.
pub open spec fn authority_of(rest: Seq<char>) -> Seq<char> {
    match first_index_of(rest, '/') {
        Some(i) => rest.subrange(0, i),
        None => rest,
    }
}

/// The path part of what follows `ssh://`: from the first `/` on.
pub open spec fn raw_path_of(rest: Seq<char>) -> Seq<char> {
    match first_index_of(rest, '/') {
        Some(i) => rest.subrange(i, rest.len() as int),
        None => Seq::<char>::empty(),
    }
}

/// The user, if the authority names one (before its last `@`).
pub open spec fn user_of(auth: Seq<char>) -> Option<Seq<char>> {
    match last_index_of(auth, '@') {
        Some(j) => Some(auth.subrange(0, j)),
        None => None,
    }
}

/// `host[:port]`: the authority after its last `@`.
pub open spec fn hostport_of(auth: Seq<char>) -> Seq<char> {
    match last_index_of(auth, '@') {
        Some(j) => auth.subrange(j + 1, auth.len() as int),
        None => auth,
    }
}

/// The text after the last `:` of `host[:port]`, when it is not empty.
pub open spec fn port_text(hp: Seq<char>) -> Option<Seq<char>> {
    match last_index_of(hp, ':') {
        Some(k) => if k + 1 < hp.len() {
            Some(hp.subrange(k + 1, hp.len() as int))
        } else {
            None
        },
        None => None,
    }
}

/// The host: `host[:port]` without a non-empty `:port`.
pub open spec fn host_of(hp: Seq<char>) -> Seq<char> {
    match port_text(hp) {
        Some(_) => hp.subrange(0, last_index_of(hp, ':')->0),
        None => hp,
    }
}

/// git's `/~/x` spelling of a home-relative path becomes `~/x`; an empty
/// path becomes `/`.
pub open spec fn remote_path(raw: Seq<char>) -> Seq<char> {
    if starts_with(raw, "/~"@) {
        seq!['~'] + raw.subrange(2, raw.len() as int)
    } else if raw.len() == 0 {
        seq!['/']
    } else {
        raw
    }
}

pub open spec fn not_ssh_message(url: Seq<char>) -> Seq<char> {
    "Not an ssh:// URL: "@ + url
}

pub open spec fn missing_host_message(url: Seq<char>) -> Seq<char> {
    "Missing host name in URL: "@ + url
}

pub open spec fn invalid_port_message(p: Seq<char>, url: Seq<char>) -> Seq<char> {
    "Invalid port '"@ + p + "' in URL: "@ + url
}

/// What `SshUrl::parse` makes of `url`.
pub open spec fn ssh_parse(url: Seq<char>) -> Result<SshUrlView, Seq<char>> {
    if !starts_with(url, ssh_prefix()) {
        Err(not_ssh_message(url))
    } else {
        let rest = after(url, ssh_prefix());
        let auth = authority_of(rest);
        let hp = hostport_of(auth);
        if auth.len() == 0 {
            Err(missing_host_message(url))
        } else if port_text(hp) is Some && parsed_u16(port_text(hp)->0) is None {
            Err(invalid_port_message(port_text(hp)->0, url))
        } else if host_of(hp).len() == 0 {
            Err(missing_host_message(url))
        } else {
            Ok(
                SshUrlView {
                    user: user_of(auth),
                    host: host_of(hp),
                    port: match port_text(hp) {
                        Some(p) => parsed_u16(p),
                        None => None,
                    },
                    path: remote_path(raw_path_of(rest)),
                },
            )
        }
    }
}

/// `user@host` or plain `host`.
pub open spec fn destination_of(u: SshUrlView) -> Seq<char> {
    match u.user {
        Some(user) => user + seq!['@'] + u.host,
        None => u.host,
    }
}

/// The URL in canonical `ssh://` form.
pub open spec fn url_of(u: SshUrlView) -> Seq<char> {
    let port = match u.port {
        Some(p) => seq![':'] + decimal(p as nat),
        None => Seq::<char>::empty(),
    };
    let path = if starts_with(u.path, seq!['~']) {
        "/~"@ + u.path.subrange(1, u.path.len() as int)
    } else {
        u.path
    };
    ssh_prefix() + destination_of(u) + port + path
}

/// A result of `SshUrl::parse` matches its specification.
pub open spec fn parse_result_matches(r: Result<SshUrl, String>, url: Seq<char>) -> bool {
    match (r, ssh_parse(url)) {
        (Ok(u), Ok(v)) => u@ == v,
        (Err(e), Err(f)) => e@ == f,
        _ => false,
    }
}

fn string_from(v: &[char]) -> (r: String)
    ensures
        r@ == v@,
{
    string_of(v)
}

impl SshUrl {
    /// Parse an `ssh://` URL. Anything else (including scp-style
    /// `host:path`, see `normalize_url`) is rejected.
    pub fn parse(url: &str) -> (r: Result<SshUrl, String>)
        ensures
            parse_result_matches(r, url@),
    {
        let u = chars_of(url);
        let p = chars_of("ssh://");
        if !has_prefix(u.as_slice(), p.as_slice()) {
            let mut msg = chars_of("Not an ssh:// URL: ");
            push_all(&mut msg, u.as_slice());
            return Err(string_from(msg.as_slice()));
        }
        let rest = slice(u.as_slice(), p.len(), u.len());
        assert(rest@ == after(u@, ssh_prefix()));
        let (auth, raw_path) = match find_char(rest.as_slice(), '/') {
            Some(i) => (slice(rest.as_slice(), 0, i), slice(rest.as_slice(), i, rest.len())),
            None => {
                let a = slice(rest.as_slice(), 0, rest.len());
                assert(a@ =~= rest@);
                (a, Vec::new())
            },
        };
        assert(auth@ == authority_of(rest@));
        assert(raw_path@ == raw_path_of(rest@));
        if auth.len() == 0 {
            let mut msg = chars_of("Missing host name in URL: ");
            push_all(&mut msg, u.as_slice());
            return Err(string_from(msg.as_slice()));
        }
        let (user, hp) = match rfind_char(auth.as_slice(), '@') {
            Some(j) => (
                Some(string_from(slice(auth.as_slice(), 0, j).as_slice())),
                slice(auth.as_slice(), j + 1, auth.len()),
            ),
            None => {
                let h = slice(auth.as_slice(), 0, auth.len());
                assert(h@ =~= auth@);
                (None, h)
            },
        };
        assert(hp@ == hostport_of(auth@));
        let (host, port) = match rfind_char(hp.as_slice(), ':') {
            Some(k) => {
                if k + 1 < hp.len() {
                    let ptext = slice(hp.as_slice(), k + 1, hp.len());
                    assert(port_text(hp@) == Some(ptext@));
                    match parse_u16(ptext.as_slice()) {
                        Some(n) => (slice(hp.as_slice(), 0, k), Some(n)),
                        None => {
                            let mut msg = chars_of("Invalid port '");
                            push_all(&mut msg, ptext.as_slice());
                            push_str(&mut msg, "' in URL: ");
                            push_all(&mut msg, u.as_slice());
                            return Err(string_from(msg.as_slice()));
                        },
                    }
                } else {
                    let h = slice(hp.as_slice(), 0, hp.len());
                    assert(h@ =~= hp@);
                    (h, None)
                }
            },
            None => {
                let h = slice(hp.as_slice(), 0, hp.len());
                assert(h@ =~= hp@);
                (h, None)
            },
        };
        assert(host@ == host_of(hp@));
        if host.len() == 0 {
            let mut msg = chars_of("Missing host name in URL: ");
            push_all(&mut msg, u.as_slice());
            return Err(string_from(msg.as_slice()));
        }
        let tilde = chars_of("/~");
        proof {
            reveal_strlit("/~");
        }
        let path = if has_prefix(raw_path.as_slice(), tilde.as_slice()) {
            let mut p: Vec<char> = Vec::new();
            p.push('~');
            let tail = slice(raw_path.as_slice(), 2, raw_path.len());
            push_all(&mut p, tail.as_slice());
            p
        } else if raw_path.len() == 0 {
            let mut p: Vec<char> = Vec::new();
            p.push('/');
            p
        } else {
            raw_path
        };
        let r = SshUrl {
            user,
            host: string_from(host.as_slice()),
            port,
            path: string_from(path.as_slice()),
        };
        assert(r@.path =~= remote_path(raw_path_of(rest@)));
        assert(r@.user == user_of(auth@));
        Ok(r)
    }

    fn destination_chars(&self) -> (r: Vec<char>)
        ensures
            r@ == destination_of(self@),
    {
        match &self.user {
            Some(u) => {
                let mut out = chars_of(u.as_str());
                out.push('@');
                push_str(&mut out, self.host.as_str());
                out
            },
            None => chars_of(self.host.as_str()),
        }
    }

    /// `user@host` or plain `host`, as passed to `ssh`.
    pub fn destination(&self) -> (r: String)
        ensures
            r@ == destination_of(self@),
    {
        let v = self.destination_chars();
        string_from(v.as_slice())
    }

    /// The URL in canonical `ssh://` form.
    pub fn to_url(&self) -> (r: String)
        ensures
            r@ == url_of(self@),
    {
        let mut out = chars_of("ssh://");
        let d = self.destination_chars();
        push_all(&mut out, d.as_slice());
        let ghost head = out@;
        match self.port {
            Some(p) => {
                out.push(':');
                let digits = decimal_of(p as usize);
                push_all(&mut out, digits.as_slice());
            },
            None => {},
        }
        let path = chars_of(self.path.as_str());
        if path.len() > 0 && path[0] == '~' {
            push_str(&mut out, "/~");
            let tail = slice(path.as_slice(), 1, path.len());
            push_all(&mut out, tail.as_slice());
        } else {
            push_all(&mut out, path.as_slice());
        }
        proof {
            let tilde = seq!['~'];
            if path@.len() > 0 && path@[0] == '~' {
                assert(path@.subrange(0, 1) =~= tilde);
            } else if path@.len() > 0 {
                assert(path@.subrange(0, 1)[0] != '~');
            }
        }
        string_from(out.as_slice())
    }

    /// The arguments of an `ssh` command line addressing this host, without
    /// the program and without a remote command: batch mode, a connection
    /// timeout, the port when there is one, then `--` and the destination.
    pub fn ssh_args(&self) -> (r: Vec<String>)
        ensures
            crate::text::string_views(r@) == ssh_args_of(self@),
    {
        let mut args: Vec<String> = Vec::new();
        args.push(string_from(chars_of("-o").as_slice()));
        args.push(string_from(chars_of("BatchMode=yes").as_slice()));
        args.push(string_from(chars_of("-o").as_slice()));
        args.push(string_from(chars_of("ConnectTimeout=15").as_slice()));
        match self.port {
            Some(p) => {
                args.push(string_from(chars_of("-p").as_slice()));
                args.push(string_from(decimal_of(p as usize).as_slice()));
            },
            None => {},
        }
        args.push(string_from(chars_of("--").as_slice()));
        let d = self.destination_chars();
        args.push(string_from(d.as_slice()));
        assert(crate::text::string_views(args@) =~= ssh_args_of(self@));
        args
    }
}

/// The `ssh` arguments for a URL.
pub open spec fn ssh_args_of(u: SshUrlView) -> Seq<Seq<char>> {
    let base = seq!["-o"@, "BatchMode=yes"@, "-o"@, "ConnectTimeout=15"@];
    let port = match u.port {
        Some(p) => seq!["-p"@, decimal(p as nat)],
        None => Seq::<Seq<char>>::empty(),
    };
    base + port + seq!["--"@, destination_of(u)]
}

// ---------------------------------------------------------------------------
// Host shorthands and URL normalisation
// ---------------------------------------------------------------------------

/// A path as it follows the host in an `ssh://` URL: `~x` becomes `/~x`,
/// an absolute path stays, anything else is made home-relative (`/~/x`).
pub open spec fn url_path(path: Seq<char>) -> Seq<char> {
    if starts_with(path, seq!['~']) {
        "/~"@ + path.subrange(1, path.len() as int)
    } else if starts_with(path, seq!['/']) {
        path
    } else {
        "/~/"@ + path
    }
}

pub open spec fn invalid_host_message(host: Seq<char>) -> Seq<char> {
    "'"@ + host + "' is not a valid host name"@
}

/// What `url_for_host` returns for `host` and `path`.
pub open spec fn host_url(host: Seq<char>, path: Option<Seq<char>>) -> Result<Seq<char>, Seq<char>> {
    let h = trim(host);
    if h.len() == 0 || h.contains('/') || exists|i: int| 0 <= i < h.len() && is_ws(#[trigger] h[i]) {
        Err(invalid_host_message(h))
    } else {
        let p = match path {
            Some(p) => p,
            None => DEFAULT_REMOTE_PATH@,
        };
        match ssh_parse(ssh_prefix() + h + url_path(p)) {
            Ok(u) => Ok(url_of(u)),
            Err(e) => Err(e),
        }
    }
}

fn url_path_chars(p: &[char]) -> (r: Vec<char>)
    ensures
        r@ == url_path(p@),
{
    if p.len() > 0 && p[0] == '~' {
        let mut out = chars_of("/~");
        let tail = slice(p, 1, p.len());
        push_all(&mut out, tail.as_slice());
        assert(p@.subrange(0, 1) =~= seq!['~']);
        out
    } else if p.len() > 0 && p[0] == '/' {
        assert(p@.subrange(0, 1) =~= seq!['/']);
        assert(!starts_with(p@, seq!['~'])) by {
            assert(p@.subrange(0, 1)[0] != '~');
        }
        slice_all(p)
    } else {
        if p.len() > 0 {
            assert(p@.subrange(0, 1)[0] != '~');
            assert(p@.subrange(0, 1)[0] != '/');
        }
        let mut out = chars_of("/~/");
        push_all(&mut out, p);
        out
    }
}

fn slice_all(p: &[char]) -> (r: Vec<char>)
    ensures
        r@ == p@,
{
    let r = slice(p, 0, p.len());
    assert(r@ =~= p@);
    r
}

fn has_whitespace(s: &[char]) -> (r: bool)
    ensures
        r == exists|i: int| 0 <= i < s@.len() && is_ws(#[trigger] s@[i]),
{
    let mut i: usize = 0;
    while i < s.len()
        invariant
            i <= s@.len(),
            forall|j: int| 0 <= j < i ==> !is_ws(#[trigger] s@[j]),
        decreases s.len() - i,
    {
        if is_whitespace(s[i]) {
            return true;
        }
        i += 1;
    }
    false
}

/// URL for the notes directory at `path` (default `~/.piki`) on `host`,
/// which may be a bare host name, `user@host`, or `user@host:port`.
pub fn url_for_host(host: &str, path: Option<&str>) -> (r: Result<String, String>)
    ensures
        match (r, host_url(host@, match path { Some(p) => Some(p@), None => None })) {
            (Ok(a), Ok(b)) => a@ == b,
            (Err(a), Err(b)) => a@ == b,
            _ => false,
        },
{
    let raw = chars_of(host);
    let h = trimmed(raw.as_slice());
    if h.len() == 0 || has_char(h.as_slice(), '/') || has_whitespace(h.as_slice()) {
        let mut msg = chars_of("'");
        push_all(&mut msg, h.as_slice());
        push_str(&mut msg, "' is not a valid host name");
        return Err(string_from(msg.as_slice()));
    }
    let p = match path {
        Some(p) => chars_of(p),
        None => chars_of(DEFAULT_REMOTE_PATH),
    };
    let mut url = chars_of("ssh://");
    push_all(&mut url, h.as_slice());
    let up = url_path_chars(p.as_slice());
    push_all(&mut url, up.as_slice());
    let s = string_from(url.as_slice());
    match SshUrl::parse(s.as_str()) {
        Ok(u) => Ok(u.to_url()),
        Err(e) => Err(e),
    }
}

/// Is this a URL our SSH transport handles?
pub fn is_ssh_url(url: &str) -> (r: bool)
    ensures
        r == starts_with(url@, ssh_prefix()),
{
    let u = chars_of(url);
    let p = chars_of("ssh://");
    has_prefix(u.as_slice(), p.as_slice())
}

/// Is this a `file://` URL?
pub fn is_file_url(url: &str) -> (r: bool)
    ensures
        r == starts_with(url@, file_prefix()),
{
    let u = chars_of(url);
    let p = chars_of("file://");
    has_prefix(u.as_slice(), p.as_slice())
}

/// A drive-letter path such as `C:/x` or `C:\x`.
pub open spec fn is_drive_path(s: Seq<char>) -> bool {
    s.len() >= 3 && is_ascii_alpha(s[0]) && s[1] == ':' && (s[2] == '/' || s[2] == '\\')
}

/// An absolute local path: starts with `/` or a drive letter.
pub open spec fn absolute_local(s: Seq<char>) -> bool {
    (s.len() > 0 && s[0] == '/') || is_drive_path(s)
}

pub fn is_absolute_local_path(s: &str) -> (r: bool)
    ensures
        r == absolute_local(s@),
{
    let v = chars_of(s);
    (v.len() > 0 && v[0] == '/') || (v.len() >= 3 && is_ascii_alphabetic(v[0]) && v[1] == ':' && (
    v[2] == '/' || v[2] == '\\'))
}

/// The `file://` URL for an absolute local path, backslashes turned into
/// slashes.
pub open spec fn file_url(path: Seq<char>) -> Seq<char> {
    let p = replace_char(path, '\\', seq!['/']);
    if p.len() > 0 && p[0] == '/' {
        file_prefix() + p
    } else {
        "file:///"@ + p
    }
}

fn file_url_chars(path: &[char]) -> (r: Vec<char>)
    ensures
        r@ == file_url(path@),
{
    let mut slash: Vec<char> = Vec::new();
    slash.push('/');
    let p = replace_all(path, '\\', slash.as_slice());
    assert(slash@ =~= seq!['/']);
    let mut out = if p.len() > 0 && p[0] == '/' {
        chars_of("file://")
    } else {
        chars_of("file:///")
    };
    push_all(&mut out, p.as_slice());
    out
}

/// `file://` URL for an absolute local path.
pub fn file_url_for_path(path: &str) -> (r: String)
    ensures
        r@ == file_url(path@),
{
    let v = chars_of(path);
    let out = file_url_chars(v.as_slice());
    string_from(out.as_slice())
}

/// The local path named by a `file://` URL (`file:///C:/x` gives `C:/x`).
pub open spec fn file_url_local_path(url: Seq<char>) -> Option<Seq<char>> {
    if !starts_with(url, file_prefix()) {
        None
    } else {
        let rest = after(url, file_prefix());
        if rest.len() >= 3 && rest[0] == '/' && is_ascii_alpha(rest[1]) && rest[2] == ':' {
            Some(rest.subrange(1, rest.len() as int))
        } else {
            Some(rest)
        }
    }
}

/// The local path named by a `file://` URL.
pub fn file_url_path(url: &str) -> (r: Option<String>)
    ensures
        r is Some <==> file_url_local_path(url@) is Some,
        r is Some ==> r->0@ == file_url_local_path(url@)->0,
{
    let u = chars_of(url);
    let p = chars_of("file://");
    if !has_prefix(u.as_slice(), p.as_slice()) {
        return None;
    }
    let rest = slice(u.as_slice(), p.len(), u.len());
    if rest.len() >= 3 && rest[0] == '/' && is_ascii_alphabetic(rest[1]) && rest[2] == ':' {
        Some(string_from(slice(rest.as_slice(), 1, rest.len()).as_slice()))
    } else {
        Some(string_from(rest.as_slice()))
    }
}

/// A scp-style `host:path` shorthand, split at its first `:`: the host is
/// not empty, holds no `/` or `\`, is not a single drive letter, and a path
/// follows.
pub open spec fn scp_parts(s: Seq<char>) -> Option<(Seq<char>, Seq<char>)> {
    match first_index_of(s, ':') {
        Some(i) => {
            let host = s.subrange(0, i);
            let path = s.subrange(i + 1, s.len() as int);
            if host.len() > 0 && !host.contains('/') && !host.contains('\\') && !(host.len() == 1
                && is_ascii_alpha(host[0])) && path.len() > 0 {
                Some((host, path))
            } else {
                None
            }
        },
        None => None,
    }
}

/// The path of a scp-style shorthand as it follows the host in an `ssh://`
/// URL: absolute stays, `~x` becomes `/~x`, anything else `/~/x`.
pub open spec fn scp_url_path(path: Seq<char>) -> Seq<char> {
    if starts_with(path, seq!['/']) {
        path
    } else if starts_with(path, seq!['~']) {
        "/~"@ + path.subrange(1, path.len() as int)
    } else {
        "/~/"@ + path
    }
}

/// What `normalize_url` makes of `input`.
pub open spec fn normalized_url(input: Seq<char>) -> Seq<char> {
    let s = trim(input);
    if contains(s, "://"@) {
        s
    } else if absolute_local(s) {
        file_url(s)
    } else {
        match scp_parts(s) {
            Some((host, path)) => ssh_prefix() + host + scp_url_path(path),
            None => s,
        }
    }
}

/// Turn the URL forms people type into something a transport can dispatch
/// on: scp-like `host:path` and `user@host:path` become `ssh://` (a relative
/// path made home-relative), absolute local paths become `file://` URLs,
/// everything else is returned trimmed but otherwise unchanged.
pub fn normalize_url(input: &str) -> (r: String)
    ensures
        r@ == normalized_url(input@),
{
    let raw = chars_of(input);
    let s = trimmed(raw.as_slice());
    let sep = chars_of("://");
    if crate::text::has_substring(s.as_slice(), sep.as_slice()) {
        return string_from(s.as_slice());
    }
    if (s.len() > 0 && s[0] == '/') || (s.len() >= 3 && is_ascii_alphabetic(s[0]) && s[1] == ':'
        && (s[2] == '/' || s[2] == '\\')) {
        let out = file_url_chars(s.as_slice());
        return string_from(out.as_slice());
    }
    match find_char(s.as_slice(), ':') {
        Some(i) => {
            let host = slice(s.as_slice(), 0, i);
            let path = slice(s.as_slice(), i + 1, s.len());
            if host.len() > 0 && !has_char(host.as_slice(), '/') && !has_char(host.as_slice(), '\\')
                && !(host.len() == 1 && is_ascii_alphabetic(host[0])) && path.len() > 0 {
                let mut out = chars_of("ssh://");
                push_all(&mut out, host.as_slice());
                if path[0] == '/' {
                    assert(path@.subrange(0, 1) =~= seq!['/']);
                    push_all(&mut out, path.as_slice());
                } else if path[0] == '~' {
                    assert(path@.subrange(0, 1) =~= seq!['~']);
                    assert(path@.subrange(0, 1)[0] != '/');
                    push_str(&mut out, "/~");
                    let tail = slice(path.as_slice(), 1, path.len());
                    push_all(&mut out, tail.as_slice());
                } else {
                    assert(path@.subrange(0, 1)[0] != '/');
                    assert(path@.subrange(0, 1)[0] != '~');
                    push_str(&mut out, "/~/");
                    push_all(&mut out, path.as_slice());
                }
                return string_from(out.as_slice());
            }
            string_from(s.as_slice())
        },
        None => string_from(s.as_slice()),
    }
}

/// `://` at index `k` of `y` makes `y` contain it.
proof fn lemma_scheme_separator(y: Seq<char>, k: int)
    requires
        0 <= k,
        k + 3 <= y.len(),
        y[k] == ':',
        y[k + 1] == '/',
        y[k + 2] == '/',
    ensures
        contains(y, "://"@),
{
    reveal_strlit("://");
    assert(y.subrange(k, k + 3) =~= "://"@);
    assert(occurs_at(y, "://"@, k));
}

/// Replacing backslashes by slashes keeps a text that ends in a
/// non-whitespace character ending in one.
proof fn lemma_unpadded_after_slashes(s: Seq<char>)
    requires
        s.len() > 0,
        !is_ws(s.last()),
    ensures
        replace_char(s, '\\', seq!['/']).len() > 0,
        !is_ws(replace_char(s, '\\', seq!['/']).last()),
{
}

/// The path of a scp-style shorthand, written into an `ssh://` URL, ends in
/// what the path ends in (or in `~` for the bare home directory).
proof fn lemma_scp_path_end(path: Seq<char>)
    requires
        path.len() > 0,
        !is_ws(path.last()),
    ensures
        scp_url_path(path).len() > 0,
        !is_ws(scp_url_path(path).last()),
{
    reveal_strlit("/~");
    reveal_strlit("/~/");
    if starts_with(path, seq!['/']) {
    } else if starts_with(path, seq!['~']) {
        if path.len() > 1 {
            assert(scp_url_path(path).last() == path.last());
        } else {
            assert(scp_url_path(path).last() == '~');
        }
    } else {
        assert(scp_url_path(path).last() == path.last());
    }
}

/// Normalizing a URL twice gives what normalizing it once gives: every
/// result of `normalize_url` is already in normal form.
pub proof fn normalizing_twice_changes_nothing(input: Seq<char>)
    ensures
        normalized_url(normalized_url(input)) == normalized_url(input),
{
    let s = trim(input);
    let r = normalized_url(input);
    lemma_trim_idempotent(input);
    lemma_trim_ends(input);
    reveal_strlit("ssh://");
    reveal_strlit("file://");
    reveal_strlit("file:///");
    if contains(s, "://"@) {
        assert(r == s);
    } else if absolute_local(s) {
        let p = replace_char(s, '\\', seq!['/']);
        lemma_unpadded_after_slashes(s);
        assert(r == file_url(s));
        if p.len() > 0 && p[0] == '/' {
            assert(r == file_prefix() + p);
        } else {
            assert(r == "file:///"@ + p);
        }
        assert(r[0] == 'f');
        assert(r.last() == p.last());
        lemma_trim_of_unpadded(r);
        lemma_scheme_separator(r, 4);
    } else if scp_parts(s) is Some {
        let (host, path) = scp_parts(s)->0;
        let i = first_index_of(s, ':')->0;
        lemma_first_index_of(s, ':');
        assert(path == s.subrange(i + 1, s.len() as int));
        assert(path.len() > 0);
        assert(path.last() == s[s.len() - 1]);
        lemma_scp_path_end(path);
        assert(r == ssh_prefix() + host + scp_url_path(path));
        assert(r[0] == 's');
        assert(r.last() == scp_url_path(path).last());
        lemma_trim_of_unpadded(r);
        lemma_scheme_separator(r, 3);
    } else {
        assert(r == s);
    }
}

/// What a successful parse yields: a host that is not empty and holds no `/`
/// or `@`, a user without `/`, no port text left in a host parsed without a
/// port, and a path that is home-relative (`~...`) or absolute without git's
/// `/~` spelling.
proof fn lemma_parsed_parts(url: Seq<char>, v: SshUrlView)
    requires
        ssh_parse(url) == Ok::<SshUrlView, Seq<char>>(v),
    ensures
        v.host.len() > 0,
        forall|i: int| 0 <= i < v.host.len() ==> v.host[i] != '/' && v.host[i] != '@',
        v.user matches Some(u) ==> forall|i: int| 0 <= i < u.len() ==> u[i] != '/',
        v.port is None ==> port_text(v.host) is None,
        starts_with(v.path, seq!['~']) || (v.path.len() > 0 && v.path[0] == '/' && !starts_with(
            v.path,
            "/~"@,
        )),
{
    reveal_strlit("ssh://");
    reveal_strlit("/~");
    let rest = after(url, ssh_prefix());
    let auth = authority_of(rest);
    let hp = hostport_of(auth);
    lemma_first_index_of(rest, '/');
    lemma_last_index_of(auth, '@');
    lemma_last_index_of(hp, ':');
    assert(forall|i: int| 0 <= i < auth.len() ==> auth[i] != '/');
    assert(forall|i: int| 0 <= i < hp.len() ==> hp[i] != '/' && hp[i] != '@');
    assert(forall|i: int| 0 <= i < v.host.len() ==> v.host[i] == hp[i]);
    let raw = raw_path_of(rest);
    if starts_with(raw, "/~"@) {
        assert(v.path[0] == '~');
        assert(v.path.subrange(0, 1) =~= seq!['~']);
    } else if raw.len() == 0 {
        assert(v.path =~= seq!['/']);
    } else {
        assert(v.path == raw);
        assert(raw[0] == '/');
    }
}

/// The port part of a URL written by `url_of`: `:` and the digits, or nothing.
spec fn written_port(v: SshUrlView) -> Seq<char> {
    match v.port {
        Some(p) => seq![':'] + decimal(p as nat),
        None => Seq::<char>::empty(),
    }
}

/// The path part of a URL written by `url_of`.
spec fn written_path(v: SshUrlView) -> Seq<char> {
    if starts_with(v.path, seq!['~']) {
        "/~"@ + v.path.subrange(1, v.path.len() as int)
    } else {
        v.path
    }
}

/// The port part holds neither `/` nor `@`, and after its `:` only digits.
proof fn lemma_written_port(v: SshUrlView)
    ensures
        forall|i: int| 0 <= i < written_port(v).len() ==> written_port(v)[i] != '/'
            && written_port(v)[i] != '@',
        forall|i: int| 1 <= i < written_port(v).len() ==> written_port(v)[i] != ':',
{
    let port = written_port(v);
    match v.port {
        Some(p) => {
            lemma_decimal_digits(p as nat);
            assert forall|i: int| 1 <= i < port.len() implies is_ascii_digit(#[trigger] port[i]) by {
                assert(port[i] == decimal(p as nat)[i - 1]);
            }
        },
        None => {},
    }
}

/// `url_of` is the prefix, the authority and the path part.
proof fn lemma_written_parts(v: SshUrlView)
    ensures
        url_of(v) == ssh_prefix() + (destination_of(v) + written_port(v)) + written_path(v),
{
    assert(url_of(v) =~= ssh_prefix() + (destination_of(v) + written_port(v)) + written_path(v));
}

/// The authority of a written URL holds no `/`, and its path starts with one.
proof fn lemma_written_slashes(url: Seq<char>, v: SshUrlView)
    requires
        ssh_parse(url) == Ok::<SshUrlView, Seq<char>>(v),
    ensures
        forall|i: int|
            0 <= i < (destination_of(v) + written_port(v)).len() ==> (destination_of(v)
                + written_port(v))[i] != '/',
        written_path(v).len() > 0,
        written_path(v)[0] == '/',
{
    reveal_strlit("/~");
    lemma_parsed_parts(url, v);
    lemma_written_port(v);
    let d = destination_of(v);
    assert(forall|i: int| 0 <= i < d.len() ==> d[i] != '/') by {
        match v.user {
            Some(u) => {
                assert(d =~= u + seq!['@'] + v.host);
                assert forall|i: int| 0 <= i < d.len() implies d[i] != '/' by {
                    if i < u.len() {
                        assert(d[i] == u[i]);
                    } else if i > u.len() {
                        assert(d[i] == v.host[i - u.len() - 1]);
                    }
                }
            },
            None => {},
        }
    }
    let a = d + written_port(v);
    assert forall|i: int| 0 <= i < a.len() implies a[i] != '/' by {
        if i < d.len() {
            assert(a[i] == d[i]);
        } else {
            assert(a[i] == written_port(v)[i - d.len()]);
        }
    }
}

/// The written URL splits into the authority (destination and port) and the
/// path at its first `/`.
proof fn lemma_written_split(url: Seq<char>, v: SshUrlView)
    requires
        ssh_parse(url) == Ok::<SshUrlView, Seq<char>>(v),
    ensures
        starts_with(url_of(v), ssh_prefix()),
        authority_of(after(url_of(v), ssh_prefix())) == destination_of(v) + written_port(v),
        raw_path_of(after(url_of(v), ssh_prefix())) == written_path(v),
{
    reveal_strlit("ssh://");
    let auth2 = destination_of(v) + written_port(v);
    let q = written_path(v);
    lemma_written_parts(v);
    lemma_written_slashes(url, v);
    let out = url_of(v);
    assert(out.subrange(0, 6) =~= ssh_prefix());
    let rest2 = after(out, ssh_prefix());
    assert(rest2 =~= auth2 + q);
    assert forall|j: int| 0 <= j < auth2.len() implies rest2[j] != '/' by {
        assert(rest2[j] == auth2[j]);
    }
    assert(rest2[auth2.len() as int] == q[0]);
    lemma_first_index_is(rest2, '/', auth2.len() as int);
    assert(authority_of(rest2) =~= auth2);
    assert(raw_path_of(rest2) =~= q);
}

/// The host and port part of a written URL holds no `@`.
proof fn lemma_written_hostport_no_at(url: Seq<char>, v: SshUrlView)
    requires
        ssh_parse(url) == Ok::<SshUrlView, Seq<char>>(v),
    ensures
        forall|i: int| 0 <= i < (v.host + written_port(v)).len() ==> (v.host + written_port(v))[i] != '@',
{
    lemma_parsed_parts(url, v);
    lemma_written_port(v);
    let hp2 = v.host + written_port(v);
    assert forall|i: int| 0 <= i < hp2.len() implies hp2[i] != '@' by {
        if i < v.host.len() {
            assert(hp2[i] == v.host[i]);
        } else {
            assert(hp2[i] == written_port(v)[i - v.host.len()]);
        }
    }
}

/// The user is read back from before the last `@`, host and port from after.
proof fn lemma_written_user(url: Seq<char>, v: SshUrlView)
    requires
        ssh_parse(url) == Ok::<SshUrlView, Seq<char>>(v),
    ensures
        user_of(destination_of(v) + written_port(v)) == v.user,
        hostport_of(destination_of(v) + written_port(v)) == v.host + written_port(v),
{
    lemma_written_hostport_no_at(url, v);
    let auth2 = destination_of(v) + written_port(v);
    let hp2 = v.host + written_port(v);
    match v.user {
        Some(u) => {
            assert(auth2 =~= u + seq!['@'] + hp2);
            assert forall|j: int| u.len() < j < auth2.len() implies auth2[j] != '@' by {
                assert(auth2[j] == hp2[j - u.len() - 1]);
            }
            lemma_last_index_is(auth2, '@', u.len() as int);
            assert(auth2.subrange(0, u.len() as int) =~= u);
            assert(auth2.subrange(u.len() + 1 as int, auth2.len() as int) =~= hp2);
        },
        None => {
            assert(auth2 =~= hp2);
            lemma_last_index_of(auth2, '@');
        },
    }
}

/// The port is read back from after the last `:`, and the host before it.
proof fn lemma_written_port_reads_back(url: Seq<char>, v: SshUrlView)
    requires
        ssh_parse(url) == Ok::<SshUrlView, Seq<char>>(v),
    ensures
        port_text(v.host + written_port(v)) == match v.port {
            Some(p) => Some(decimal(p as nat)),
            None => None::<Seq<char>>,
        },
        host_of(v.host + written_port(v)) == v.host,
        match v.port {
            Some(p) => parsed_u16(decimal(p as nat)) == Some(p),
            None => true,
        },
{
    lemma_parsed_parts(url, v);
    lemma_written_port(v);
    let host = v.host;
    let hp2 = host + written_port(v);
    match v.port {
        Some(p) => {
            let digits = decimal(p as nat);
            lemma_decimal_digits(p as nat);
            assert(hp2 =~= host + seq![':'] + digits);
            assert(forall|i: int| host.len() < i < hp2.len() ==> hp2[i] == written_port(v)[i - host.len()]);
            lemma_last_index_is(hp2, ':', host.len() as int);
            assert(hp2.subrange(host.len() + 1 as int, hp2.len() as int) =~= digits);
            assert(hp2.subrange(0, host.len() as int) =~= host);
            assert(is_ascii_digit(digits[0]));
        },
        None => {
            assert(hp2 =~= host);
        },
    }
}

/// The path is read back as it was.
proof fn lemma_written_path_reads_back(url: Seq<char>, v: SshUrlView)
    requires
        ssh_parse(url) == Ok::<SshUrlView, Seq<char>>(v),
    ensures
        remote_path(written_path(v)) == v.path,
{
    reveal_strlit("/~");
    lemma_parsed_parts(url, v);
    let q = written_path(v);
    if starts_with(v.path, seq!['~']) {
        assert(q.subrange(0, 2) =~= "/~"@);
        assert(v.path.subrange(0, 1) =~= seq!['~']);
        assert(remote_path(q) =~= v.path);
    }
}

/// A parsed URL written back out in canonical form (`SshUrl::to_url`) parses
/// to the same user, host, port and path.
pub proof fn written_url_parses_back(url: Seq<char>, v: SshUrlView)
    requires
        ssh_parse(url) == Ok::<SshUrlView, Seq<char>>(v),
    ensures
        ssh_parse(url_of(v)) == Ok::<SshUrlView, Seq<char>>(v),
{
    lemma_parsed_parts(url, v);
    lemma_written_split(url, v);
    lemma_written_user(url, v);
    lemma_written_port_reads_back(url, v);
    lemma_written_path_reads_back(url, v);
}

// ---------------------------------------------------------------------------
// Shell quoting
// ---------------------------------------------------------------------------

/// `s` quoted for a POSIX shell.
pub open spec fn quoted(s: Seq<char>) -> Seq<char> {
    seq!['\''] + replace_char(s, '\'', "'\\''"@) + seq!['\'']
}

fn quote_chars(s: &[char]) -> (r: Vec<char>)
    ensures
        r@ == quoted(s@),
{
    let q = chars_of("'\\''");
    let body = replace_all(s, '\'', q.as_slice());
    let mut out: Vec<char> = Vec::new();
    out.push('\'');
    push_all(&mut out, body.as_slice());
    out.push('\'');
    out
}

/// Quote `s` for a POSIX shell.
pub fn shell_quote(s: &str) -> (r: String)
    ensures
        r@ == quoted(s@),
{
    let v = chars_of(s);
    let out = quote_chars(v.as_slice());
    string_from(out.as_slice())
}

/// A remote path quoted for a shell command line, a leading `~/` kept
/// outside the quotes so the remote shell still expands it.
pub open spec fn quoted_path(p: Seq<char>) -> Seq<char> {
    if starts_with(p, "~/"@) {
        "~/"@ + quoted(p.subrange(2, p.len() as int))
    } else if p == seq!['~'] {
        seq!['~']
    } else {
        quoted(p)
    }
}

/// Quote a remote path for use in a shell command line, keeping a leading
/// `~/` outside the quotes so the remote shell still expands it.
pub fn shell_quote_path(path: &str) -> (r: String)
    ensures
        r@ == quoted_path(path@),
{
    let p = chars_of(path);
    let home = chars_of("~/");
    proof {
        reveal_strlit("~/");
    }
    if has_prefix(p.as_slice(), home.as_slice()) {
        let mut out = chars_of("~/");
        let tail = slice(p.as_slice(), 2, p.len());
        let q = quote_chars(tail.as_slice());
        push_all(&mut out, q.as_slice());
        return string_from(out.as_slice());
    }
    if p.len() == 1 && p[0] == '~' {
        assert(p@ =~= seq!['~']);
        return string_from(p.as_slice());
    }
    let q = quote_chars(p.as_slice());
    string_from(q.as_slice())
}

// ---------------------------------------------------------------------------
// Where a remote URL leads
// ---------------------------------------------------------------------------

/// How to reach the repository behind a URL.
#[derive(Debug, Clone, PartialEq, Eq)]
pub enum Target {
    Ssh(SshUrl),
    Local(String),
}

impl Target {
    /// An `ssh://` URL goes over SSH, a `file://` URL to a local path;
    /// anything else is unsupported.
    pub fn parse(url: &str) -> (r: Result<Target, String>)
        ensures
            starts_with(url@, ssh_prefix()) ==> match r {
                Ok(Target::Ssh(u)) => ssh_parse(url@) == Ok::<SshUrlView, Seq<char>>(u@),
                Err(e) => ssh_parse(url@) == Err::<SshUrlView, Seq<char>>(e@),
                _ => false,
            },
            !starts_with(url@, ssh_prefix()) ==> match r {
                Ok(Target::Local(p)) => file_url_local_path(url@) == Some(p@),
                Err(e) => file_url_local_path(url@) is None && e@ == "Unsupported URL: "@ + url@,
                _ => false,
            },
    {
        if is_ssh_url(url) {
            return match SshUrl::parse(url) {
                Ok(u) => Ok(Target::Ssh(u)),
                Err(e) => Err(e),
            };
        }
        match file_url_path(url) {
            Some(p) => Ok(Target::Local(p)),
            None => {
                let mut msg = chars_of("Unsupported URL: ");
                push_str(&mut msg, url);
                Err(string_from(msg.as_slice()))
            },
        }
    }

    /// Human-readable name of the other end, for error messages.
    pub fn describe(&self) -> (r: String)
        ensures
            match self {
                Target::Ssh(u) => r@ == destination_of(u@),
                Target::Local(p) => r@ == p@,
            },
    {
        match self {
            Target::Ssh(u) => u.destination(),
            Target::Local(p) => string_from(chars_of(p.as_str()).as_slice()),
        }
    }
}

/// Result of probing a remote machine for a Piki notes directory.
#[derive(Debug, Clone, PartialEq, Eq)]
pub enum RemoteCheck {
    /// Connected, and the directory is a Git repository ready to sync with.
    Ready,
    /// `ssh` could not connect or log in (unreachable host, no usable key).
    Unreachable(String),
    /// Connected fine, but there is no Git repository at the given path.
    NoRepository(String),
}

/// Exit status `ssh` uses for its own failures (connection refused, host key
/// problems, authentication failure) as opposed to the remote command failing.
pub const SSH_EXIT_FAILURE: i32 = 255;

/// The two sides of the git smart protocol.
#[derive(Debug, Clone, Copy, PartialEq, Eq)]
pub enum PackService {
    /// Fetching: `git-upload-pack` runs on the other end.
    Upload,
    /// Pushing: `git-receive-pack` runs on the other end.
    Receive,
}

/// `git-upload-pack` / `git-receive-pack`.
pub open spec fn dashed_name(s: PackService) -> Seq<char> {
    match s {
        PackService::Upload => "git-upload-pack"@,
        PackService::Receive => "git-receive-pack"@,
    }
}

/// `upload-pack` / `receive-pack`, the `git` subcommand.
pub open spec fn sub_name(s: PackService) -> Seq<char> {
    match s {
        PackService::Upload => "upload-pack"@,
        PackService::Receive => "receive-pack"@,
    }
}

/// The remote command run over `ssh` for the repository at `path`: a
/// leading `~/` is dropped (ssh starts in the login user's home directory,
/// and restricted git shells accept only that form), the rest shell-quoted.
pub open spec fn ssh_command_text(path: Seq<char>, s: PackService) -> Seq<char> {
    let p = if starts_with(path, "~/"@) {
        path.subrange(2, path.len() as int)
    } else {
        path
    };
    dashed_name(s) + seq![' '] + quoted(p)
}

/// The remote command line for `service` on the repository at `path`.
pub fn ssh_remote_command(path: &str, service: PackService) -> (r: String)
    ensures
        r@ == ssh_command_text(path@, service),
{
    let p = chars_of(path);
    let home = chars_of("~/");
    proof {
        reveal_strlit("~/");
    }
    let rel = if has_prefix(p.as_slice(), home.as_slice()) {
        slice(p.as_slice(), 2, p.len())
    } else {
        slice_all(p.as_slice())
    };
    let mut out = match service {
        PackService::Upload => chars_of("git-upload-pack"),
        PackService::Receive => chars_of("git-receive-pack"),
    };
    out.push(' ');
    let q = quote_chars(rel.as_slice());
    push_all(&mut out, q.as_slice());
    string_from(out.as_slice())
}

/// The arguments of the local `git` process serving `service` for the
/// repository at `path`.
pub fn local_pack_args(path: &str, service: PackService) -> (r: Vec<String>)
    ensures
        crate::text::string_views(r@) == seq![sub_name(service), path@],
{
    let sub = match service {
        PackService::Upload => chars_of("upload-pack"),
        PackService::Receive => chars_of("receive-pack"),
    };
    let mut r: Vec<String> = Vec::new();
    r.push(string_from(sub.as_slice()));
    r.push(string_from(chars_of(path).as_slice()));
    assert(crate::text::string_views(r@) =~= seq![sub_name(service), path@]);
    r
}

/// What to say about a failed transport process: its trimmed stderr, or
/// `exit status` text when it printed nothing.
pub open spec fn failure_detail_text(stderr: Seq<char>, status: Seq<char>) -> Seq<char> {
    if trim(stderr).len() == 0 {
        status
    } else {
        trim(stderr)
    }
}

/// The detail of a failure: the trimmed `stderr`, or `status` (the exit
/// status as the platform prints it) when `stderr` is blank.
pub fn failure_detail(stderr: &str, status: &str) -> (r: String)
    ensures
        r@ == failure_detail_text(stderr@, status@),
{
    let e = chars_of(stderr);
    let t = crate::text::trimmed(e.as_slice());
    if t.len() == 0 {
        string_from(chars_of(status).as_slice())
    } else {
        string_from(t.as_slice())
    }
}

/// The error for a transport process that ended early: `ssh` itself
/// failing (exit status 255) means the host could not be reached.
pub open spec fn failure_text(is_ssh: bool, host: Seq<char>, code: Option<i32>, detail: Seq<char>) -> Seq<char> {
    if is_ssh && code == Some(SSH_EXIT_FAILURE) {
        "Could not connect to "@ + host + ": "@ + detail
    } else if is_ssh {
        "Remote command on "@ + host + " failed: "@ + detail
    } else {
        "git failed for "@ + host + ": "@ + detail
    }
}

/// The error message for a transport process to `host` that exited with
/// `code` after printing `detail` (see `failure_detail`).
pub fn failure_message(is_ssh: bool, host: &str, code: Option<i32>, detail: &str) -> (r: String)
    ensures
        r@ == failure_text(is_ssh, host@, code, detail@),
{
    let mut out = if is_ssh && code == Some(SSH_EXIT_FAILURE) {
        chars_of("Could not connect to ")
    } else if is_ssh {
        chars_of("Remote command on ")
    } else {
        chars_of("git failed for ")
    };
    push_str(&mut out, host);
    if is_ssh && code == Some(SSH_EXIT_FAILURE) {
        push_str(&mut out, ": ");
    } else if is_ssh {
        push_str(&mut out, " failed: ");
    } else {
        push_str(&mut out, ": ");
    }
    push_str(&mut out, detail);
    string_from(out.as_slice())
}

/// The shell script run on the remote machine to check its notes directory
/// and let it accept pushes to its checked-out branch.
pub open spec fn check_script_text(path: Seq<char>) -> Seq<char> {
    "cd "@ + quoted_path(path)
        + " && git rev-parse --is-inside-work-tree >/dev/null && git config receive.denyCurrentBranch updateInstead"@
}

/// The remote script of the repository check for `url`.
pub fn check_script(url: &SshUrl) -> (r: String)
    ensures
        r@ == check_script_text(url@.path),
{
    let dir = shell_quote_path(url.path.as_str());
    let mut out = chars_of("cd ");
    push_str(&mut out, dir.as_str());
    push_str(
        &mut out,
        " && git rev-parse --is-inside-work-tree >/dev/null && git config receive.denyCurrentBranch updateInstead",
    );
    string_from(out.as_slice())
}

/// How the repository check went, from the remote script's exit: success
/// means ready, `ssh`'s own failure status means unreachable, anything else
/// that there is no repository; `detail` says why.
pub fn classify_remote_check(success: bool, code: Option<i32>, detail: &str) -> (r: RemoteCheck)
    ensures
        success ==> r == RemoteCheck::Ready,
        !success && code == Some(SSH_EXIT_FAILURE) ==> (r matches RemoteCheck::Unreachable(d)
            && d@ == detail@),
        !success && code != Some(SSH_EXIT_FAILURE) ==> (r matches RemoteCheck::NoRepository(d)
            && d@ == detail@),
{
    if success {
        RemoteCheck::Ready
    } else if code == Some(SSH_EXIT_FAILURE) {
        RemoteCheck::Unreachable(string_from(chars_of(detail).as_slice()))
    } else {
        RemoteCheck::NoRepository(string_from(chars_of(detail).as_slice()))
    }
}

} // verus!
