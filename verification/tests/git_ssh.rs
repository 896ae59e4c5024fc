use piki::git::ssh_program::choose_ssh_program;
use piki::git::ssh::{
    file_url_path, normalize_url, shell_quote, shell_quote_path, url_for_host, SshUrl,
};

#[test]
fn parses_plain_host_with_home_relative_path() {
    let u = SshUrl::parse("ssh://laptop/~/.piki").unwrap();
    assert_eq!(u.user, None);
    assert_eq!(u.host, "laptop");
    assert_eq!(u.port, None);
    assert_eq!(u.path, "~/.piki");
    assert_eq!(u.destination(), "laptop");
    assert_eq!(u.to_url(), "ssh://laptop/~/.piki");
}

#[test]
fn parses_user_port_and_absolute_path() {
    let u = SshUrl::parse("ssh://rob@nas.local:2222/srv/notes").unwrap();
    assert_eq!(u.user.as_deref(), Some("rob"));
    assert_eq!(u.host, "nas.local");
    assert_eq!(u.port, Some(2222));
    assert_eq!(u.path, "/srv/notes");
    assert_eq!(u.destination(), "rob@nas.local");
    assert_eq!(u.to_url(), "ssh://rob@nas.local:2222/srv/notes");
}

#[test]
fn rejects_bad_urls() {
    assert!(SshUrl::parse("laptop:.piki").is_err());
    assert!(SshUrl::parse("ssh:///nohost").is_err());
    assert!(SshUrl::parse("ssh://host:notaport/x").is_err());
}

#[test]
fn host_shorthand_becomes_default_notes_url() {
    assert_eq!(url_for_host("laptop", None).unwrap(), "ssh://laptop/~/.piki");
    assert_eq!(
        url_for_host("rob@laptop:2200", None).unwrap(),
        "ssh://rob@laptop:2200/~/.piki"
    );
    assert_eq!(
        url_for_host("laptop", Some("~/notes")).unwrap(),
        "ssh://laptop/~/notes"
    );
    assert_eq!(
        url_for_host("laptop", Some("notes/wiki")).unwrap(),
        "ssh://laptop/~/notes/wiki"
    );
    assert_eq!(
        url_for_host("laptop", Some("/srv/wiki")).unwrap(),
        "ssh://laptop/srv/wiki"
    );
    assert!(url_for_host("", None).is_err());
    assert!(url_for_host("not a host", None).is_err());
    assert!(url_for_host("host/path", None).is_err());
}

#[test]
fn scp_style_urls_are_normalized() {
    assert_eq!(normalize_url("laptop:.piki"), "ssh://laptop/~/.piki");
    assert_eq!(normalize_url("laptop:~/.piki"), "ssh://laptop/~/.piki");
    assert_eq!(normalize_url("rob@laptop:/srv/x"), "ssh://rob@laptop/srv/x");
    assert_eq!(normalize_url("ssh://laptop/~/.piki"), "ssh://laptop/~/.piki");
    assert_eq!(normalize_url("file:///tmp/x"), "file:///tmp/x");
    assert_eq!(normalize_url("/tmp/x"), "file:///tmp/x");
    assert_eq!(normalize_url("C:\\notes\\wiki"), "file:///C:/notes/wiki");
    assert_eq!(normalize_url("./relative"), "./relative");
    assert_eq!(file_url_path("file:///tmp/x").unwrap(), "/tmp/x");
    assert_eq!(file_url_path("file:///C:/x").unwrap(), "C:/x");
}

#[test]
fn shell_quoting() {
    assert_eq!(shell_quote("plain"), "'plain'");
    assert_eq!(shell_quote("it's"), r"'it'\''s'");
    assert_eq!(shell_quote_path("~/.piki"), "~/'.piki'");
    assert_eq!(shell_quote_path("/srv/my notes"), "'/srv/my notes'");
    assert_eq!(shell_quote_path("~"), "~");
}

#[test]
fn normalizing_a_normalized_url_changes_nothing() {
    let inputs = [
        "laptop:.piki",
        "  rob@laptop:/srv/x  ",
        "laptop:~",
        "/tmp/x",
        "C:\\notes\\wiki",
        "./relative",
        "ssh://laptop/~/.piki",
        "",
    ];
    for input in inputs {
        let once = normalize_url(input);
        assert_eq!(normalize_url(&once), once, "input {input:?}");
    }
    assert_eq!(normalize_url("laptop:~"), "ssh://laptop/~");
}

#[test]
fn written_urls_parse_back_to_the_same_parts() {
    let urls = [
        "ssh://laptop/~/.piki",
        "ssh://rob@nas.local:2222/srv/notes",
        "ssh://host:0022/x",
        "ssh://a@b@host",
        "ssh://host:",
        "ssh://laptop/~",
    ];
    for url in urls {
        let parsed = SshUrl::parse(url).unwrap();
        let again = SshUrl::parse(&parsed.to_url()).unwrap();
        assert_eq!(again, parsed, "url {url:?}");
    }
    assert_eq!(SshUrl::parse("ssh://host:0022/x").unwrap().to_url(), "ssh://host:22/x");
}

#[test]
fn ssh_program_prefers_what_the_process_set() {
    assert_eq!(choose_ssh_program(Some("fake"), Some("a"), Some("b")), "fake");
    assert_eq!(choose_ssh_program(None, Some("a"), Some("b")), "a");
    assert_eq!(choose_ssh_program(None, None, Some("b")), "b");
    assert_eq!(choose_ssh_program(None, Some(""), Some("b")), "ssh");
    assert_eq!(choose_ssh_program(None, None, None), "ssh");
}
