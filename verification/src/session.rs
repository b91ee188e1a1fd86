//! The command dispatcher and the interactive session state machine.
//!
//! A session holds one remote working directory.  Every command's
//! remote path argument is resolved against it, but only `cd` persists
//! the resolved directory; deleting the root is refused before any
//! other work.  The shell re-parses each input line as a fresh
//! invocation, with an implicit program-name token prefixed, and an
//! `exit` line (in any letter case) ends the loop.

use vstd::prelude::*;
use vstd::string::*;

use crate::remote_path::{join_file, join_segs, RemotePathBuf};
use crate::text::{split_on, split_on_spec, starts_with_str};

verus! {

/// A parsed invocation.  Remote path arguments stay in raw form here;
/// they are resolved against the working directory at dispatch.
pub enum CliCommand {
    Status,
    Login { server: String, username: String, password: String },
    Logout,
    Push { source: String, destination: String },
    Pull { source: String, destination: String },
    Ls { path: Option<String>, list: bool, all: bool },
    Mkdir { path: String },
    Rm { path: String, force: bool },
    Shell,
    Cd { path: String },
}

/// The side effect a command resolves to, with every remote path fully
/// resolved against the working directory.
pub enum Action {
    ShowStatus,
    DoLogin { server: String, username: String, password: String },
    DoLogout,
    DoPush { local: String, remote: RemotePathBuf },
    DoPull { remote: RemotePathBuf, local: String },
    DoList { path: RemotePathBuf, list: bool, all: bool },
    DoMkdir { path: RemotePathBuf },
    DoDelete { path: RemotePathBuf, force: bool },
    EnterShell,
    RootDeletionRefused,
    Nothing,
}

/// Same remote location: equal segments and equal shape.
pub open spec fn same_path(a: RemotePathBuf, b: RemotePathBuf) -> bool {
    a.segs() == b.segs() && a.file() == b.file()
}

/// The resolved path of a raw fragment against the working directory.
pub open spec fn resolved(cur: RemotePathBuf, frag: Seq<char>, p: RemotePathBuf) -> bool {
    p.segs() == join_segs(cur.segs(), frag) && p.file() == join_file(cur.file(), frag) && p.wf()
}

/// What dispatching `cmd` in working directory `cur` must produce: the
/// action `a` and the next working directory `nd`.  Only `cd` moves the
/// directory; `rm` of the root is refused before any other effect.
pub open spec fn dispatch_post(
    cmd: CliCommand,
    cur: RemotePathBuf,
    a: Action,
    nd: RemotePathBuf,
) -> bool {
    &&& nd.wf()
    &&& match cmd {
        CliCommand::Status => a == Action::ShowStatus && same_path(nd, cur),
        CliCommand::Login { server, username, password } => {
            &&& (a matches Action::DoLogin { server: s2, username: u2, password: p2 } ==> s2
                == server && u2 == username && p2 == password)
            &&& (a matches Action::DoLogin { .. })
            &&& same_path(nd, cur)
        },
        CliCommand::Logout => a == Action::DoLogout && same_path(nd, cur),
        CliCommand::Push { source, destination } => {
            &&& (a matches Action::DoPush { local: s2, remote: d2 } ==> s2 == source
                && resolved(cur, destination@, d2))
            &&& (a matches Action::DoPush { .. })
            &&& same_path(nd, cur)
        },
        CliCommand::Pull { source, destination } => {
            &&& (a matches Action::DoPull { remote: s2, local: d2 } ==> d2 == destination
                && resolved(cur, source@, s2))
            &&& (a matches Action::DoPull { .. })
            &&& same_path(nd, cur)
        },
        CliCommand::Ls { path, list, all } => {
            &&& (a matches Action::DoList { path: p2, list: l2, all: a2 } ==> l2 == list && a2
                == all && (match path {
                Some(frag) => resolved(cur, frag@, p2),
                None => same_path(p2, cur) && p2.wf(),
            }))
            &&& (a matches Action::DoList { .. })
            &&& same_path(nd, cur)
        },
        CliCommand::Mkdir { path } => {
            &&& (a matches Action::DoMkdir { path: p2 } ==> resolved(cur, path@, p2))
            &&& (a matches Action::DoMkdir { .. })
            &&& same_path(nd, cur)
        },
        CliCommand::Rm { path, force } => {
            &&& (join_segs(cur.segs(), path@).len() == 0 ==> a == Action::RootDeletionRefused)
            &&& (join_segs(cur.segs(), path@).len() > 0 ==> (a matches Action::DoDelete {
                path: p2,
                force: f2,
            } ==> f2 == force && resolved(cur, path@, p2)) && (a matches Action::DoDelete { .. }))
            &&& same_path(nd, cur)
        },
        CliCommand::Shell => a == Action::EnterShell && same_path(nd, cur),
        CliCommand::Cd { path } => {
            &&& a == Action::Nothing
            &&& resolved(cur, path@, nd)
        },
    }
}

/// Resolve one command against the working directory.
pub fn dispatch(cmd: CliCommand, current: &RemotePathBuf) -> (r: (Action, RemotePathBuf))
    requires
        current.wf(),
    ensures
        dispatch_post(cmd, *current, r.0, r.1),
{
    match cmd {
        CliCommand::Status => (Action::ShowStatus, current.clone()),
        CliCommand::Login { server, username, password } => (
            Action::DoLogin { server, username, password },
            current.clone(),
        ),
        CliCommand::Logout => (Action::DoLogout, current.clone()),
        CliCommand::Push { source, destination } => {
            let d = current.join(destination.as_str());
            (Action::DoPush { local: source, remote: d }, current.clone())
        },
        CliCommand::Pull { source, destination } => {
            let s = current.join(source.as_str());
            (Action::DoPull { remote: s, local: destination }, current.clone())
        },
        CliCommand::Ls { path, list, all } => {
            let p = match path {
                Some(frag) => current.join(frag.as_str()),
                None => current.clone(),
            };
            (Action::DoList { path: p, list, all }, current.clone())
        },
        CliCommand::Mkdir { path } => {
            let p = current.join(path.as_str());
            (Action::DoMkdir { path: p }, current.clone())
        },
        CliCommand::Rm { path, force } => {
            let p = current.join(path.as_str());
            if p.as_path().len() == 0 {
                (Action::RootDeletionRefused, current.clone())
            } else {
                (Action::DoDelete { path: p, force }, current.clone())
            }
        },
        CliCommand::Shell => (Action::EnterShell, current.clone()),
        CliCommand::Cd { path } => {
            let nd = current.join(path.as_str());
            (Action::Nothing, nd)
        },
    }
}

/// One interactive session: the remote working directory it carries
/// between commands.
pub struct Session {
    current_directory: RemotePathBuf,
}

impl Session {
    /// The working directory carried by the session.
    pub closed spec fn dir(&self) -> RemotePathBuf {
        self.current_directory
    }

    pub closed spec fn wf(&self) -> bool {
        self.current_directory.wf()
    }

    /// A fresh session starts at the root.
    pub fn new() -> (r: Self)
        ensures
            r.wf(),
            r.dir().segs() == Seq::<Seq<char>>::empty(),
            !r.dir().file(),
    {
        Session { current_directory: RemotePathBuf::new() }
    }

    pub fn current_directory(&self) -> (r: &RemotePathBuf)
        ensures
            *r == self.dir(),
    {
        &self.current_directory
    }

    /// Dispatch one command: the returned action is what the caller
    /// performs; only `cd` moves the working directory.
    pub fn step(&mut self, cmd: CliCommand) -> (a: Action)
        requires
            old(self).wf(),
        ensures
            final(self).wf(),
            dispatch_post(cmd, old(self).dir(), a, final(self).dir()),
    {
        let (a, nd) = dispatch(cmd, &self.current_directory);
        self.current_directory = nd;
        a
    }
}

/// The token sequence a literal `exit` line consists of, in any letter
/// case.
pub open spec fn exit_line_spec(s: Seq<char>) -> bool {
    s.len() == 4 && (s[0] == 'e' || s[0] == 'E') && (s[1] == 'x' || s[1] == 'X') && (s[2] == 'i'
        || s[2] == 'I') && (s[3] == 't' || s[3] == 'T')
}

/// Whether an input line is the (case-insensitive) literal `exit` that
/// ends the shell loop.
pub fn is_exit_line(line: &str) -> (r: bool)
    ensures
        r == exit_line_spec(line@),
{
    if line.unicode_len() != 4 {
        return false;
    }
    let c0 = line.get_char(0);
    let c1 = line.get_char(1);
    let c2 = line.get_char(2);
    let c3 = line.get_char(3);
    (c0 == 'e' || c0 == 'E') && (c1 == 'x' || c1 == 'X') && (c2 == 'i' || c2 == 'I') && (c3 == 't'
        || c3 == 'T')
}

/// The implicit program-name token the shell prefixes to a line.
pub open spec fn program_token() -> Seq<char> {
    seq!['n', 'x', 'c', 'l', 'o', 'u', 'd']
}

/// The argument tokens a shell line re-parses as: the line split on
/// spaces, with the program-name token prefixed unless the line already
/// starts with it.
pub open spec fn shell_words_spec(line: Seq<char>) -> Seq<Seq<char>> {
    if line.len() >= 7 && line.take(7) == program_token() {
        split_on_spec(line, ' ')
    } else {
        seq![program_token()] + split_on_spec(line, ' ')
    }
}

/// Split a shell line into the argument tokens of a fresh invocation.
pub fn shell_words(line: &str) -> (r: Vec<String>)
    ensures
        r.deep_view() == shell_words_spec(line@),
{
    proof {
        reveal_strlit("nxcloud");
        assert("nxcloud"@ =~= program_token());
    }
    let toks = split_on(line, ' ');
    if starts_with_str(line, "nxcloud") {
        toks
    } else {
        let mut r: Vec<String> = Vec::new();
        r.push(String::from_str("nxcloud"));
        proof {
            assert(r.deep_view() =~~= seq![program_token()]);
        }
        let ghost lead = r.deep_view();
        let mut i: usize = 0;
        while i < toks.len()
            invariant
                0 <= i <= toks.len(),
                lead == seq![program_token()],
                r.deep_view() == lead + toks.deep_view().take(i as int),
            decreases toks.len() - i,
        {
            let ghost pre = r.deep_view();
            r.push(toks[i].clone());
            proof {
                assert(r.deep_view() =~~= pre.push(toks.deep_view()[i as int]));
                assert(pre.push(toks.deep_view()[i as int]) =~~= lead + toks.deep_view().take(
                    i + 1,
                ));
            }
            i = i + 1;
        }
        proof {
            assert(toks.deep_view().take(toks.len() as int) =~= toks.deep_view());
        }
        r
    }
}

} // verus!
