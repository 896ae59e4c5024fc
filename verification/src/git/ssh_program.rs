//! Which program reaches other machines, and with which arguments.
use vstd::prelude::*;
use crate::git::ssh::{destination_of, ssh_args_of, SshUrlView};
use crate::text::{chars_of, decimal, string_of};

verus! {

/// The program that reaches other machines: the one set for the process,
/// else `PIKI_SSH` when it is set, else `GIT_SSH`; `ssh` when the one chosen
/// is empty or none is set.
pub open spec fn ssh_program_of(
    set: Option<Seq<char>>,
    piki_ssh: Option<Seq<char>>,
    git_ssh: Option<Seq<char>>,
) -> Seq<char> {
    match set {
        Some(p) => p,
        None => {
            let env = match piki_ssh {
                Some(p) => Some(p),
                None => git_ssh,
            };
            match env {
                Some(p) => if p.len() > 0 {
                    p
                } else {
                    "ssh"@
                },
                None => "ssh"@,
            }
        },
    }
}

/// Choose the program that reaches other machines (see `ssh_program_of`):
/// `set` is what the process set, `piki_ssh` and `git_ssh` the environment.
pub fn choose_ssh_program(set: Option<&str>, piki_ssh: Option<&str>, git_ssh: Option<&str>) -> (r: String)
    ensures
        r@ == ssh_program_of(opt_str(set), opt_str(piki_ssh), opt_str(git_ssh)),
{
    if let Some(p) = set {
        return string_of(chars_of(p).as_slice());
    }
    let env = match piki_ssh {
        Some(p) => Some(p),
        None => git_ssh,
    };
    match env {
        Some(p) => {
            if p.unicode_len() > 0 {
                string_of(chars_of(p).as_slice())
            } else {
                string_of(chars_of("ssh").as_slice())
            }
        },
        None => string_of(chars_of("ssh").as_slice()),
    }
}

/// The text of an optional string slice.
pub open spec fn opt_str(o: Option<&str>) -> Option<Seq<char>> {
    match o {
        Some(s) => Some(s@),
        None => None,
    }
}

/// The `ssh` arguments end with `--` and the destination; a URL with a port
/// passes it right before them as `-p` and the port's decimal text, and a URL
/// without one passes no `-p` at all.
pub proof fn ssh_args_carry_the_port(u: SshUrlView)
    ensures
        ssh_args_of(u).len() >= 2,
        ssh_args_of(u)[ssh_args_of(u).len() - 2] == "--"@,
        ssh_args_of(u).last() == destination_of(u),
        u.port matches Some(p) ==> {
            let a = ssh_args_of(u);
            &&& a.len() >= 4
            &&& a[a.len() - 4] == "-p"@
            &&& a[a.len() - 3] == decimal(p as nat)
        },
        u.port is None ==> forall|k: int| 0 <= k < ssh_args_of(u).len() - 2 ==> #[trigger] ssh_args_of(u)[k] != "-p"@,
{
    reveal_strlit("-p");
    reveal_strlit("-o");
    reveal_strlit("BatchMode=yes");
    reveal_strlit("ConnectTimeout=15");
    let a = ssh_args_of(u);
    if u.port is None {
        assert forall|k: int| 0 <= k < a.len() - 2 implies #[trigger] a[k] != "-p"@ by {
            if k == 0 || k == 2 {
                assert(a[k][1] == 'o');
            } else {
                assert(a[k].len() != 2);
            }
        }
    }
}

} // verus!
