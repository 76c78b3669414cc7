//! How a shell is started.

use vstd::prelude::*;
use vstd::string::*;

use crate::json::{quote, quoted};
use crate::text::{cat2, cat3, cat6, pairs, text_view};

verus! {

/// The size of a terminal in characters.
#[derive(Debug, Clone, Copy, PartialEq, Eq, Structural)]
pub struct PtySize {
    pub rows: u16,
    pub cols: u16,
}

/// What a requested number of rows or columns comes to: at least one, and of
/// that the lowest sixteen bits.
pub open spec fn extent(n: u32) -> int {
    (if n < 1 {
        1
    } else {
        n as int
    }) % 65536
}

/// The number of rows or columns that `n` comes to.
fn cells(n: u32) -> (r: u16)
    ensures
        r == extent(n),
{
    let m: u32 = if n < 1 {
        1
    } else {
        n
    };
    (m % 65536) as u16
}

/// The size of a terminal that is asked for with `cols` and `rows`.
pub fn pty_size(cols: u32, rows: u32) -> (r: PtySize)
    ensures
        r.rows == extent(rows),
        r.cols == extent(cols),
{
    PtySize { rows: cells(rows), cols: cells(cols) }
}

/// What is known of the host that decides which shell is started.
#[derive(Debug, Clone, Copy, PartialEq, Eq, Structural)]
pub struct ShellHost {
    pub windows: bool,
    /// Whether `/bin/zsh` exists.
    pub has_zsh: bool,
    /// Whether `/bin/bash` exists.
    pub has_bash: bool,
}

/// The shell that is started: the requested one, or else the first that the
/// host has.
pub open spec fn shell_of(shell: Option<Seq<char>>, host: ShellHost) -> Seq<char> {
    match shell {
        Some(s) => s,
        None => if host.windows {
            "powershell.exe"@
        } else if host.has_zsh {
            "/bin/zsh"@
        } else if host.has_bash {
            "/bin/bash"@
        } else {
            "/bin/sh"@
        },
    }
}

/// The environment that a shell gets on top of the server's own.
pub open spec fn shell_env(shell: Seq<char>) -> Seq<(Seq<char>, Seq<char>)> {
    seq![
        ("TERM"@, "xterm-256color"@),
        ("COLORTERM"@, "truecolor"@),
        ("TERM_PROGRAM"@, "NoIDE"@),
        ("SHELL"@, shell),
        ("SHLVL"@, "1"@),
    ]
}

/// How a shell is started.
#[derive(Debug, PartialEq)]
pub struct SpawnPlan {
    pub shell: String,
    pub size: PtySize,
    /// The directory to start in, when it is one.
    pub cwd: Option<String>,
    pub env: Vec<(String, String)>,
}

/// Decides how a shell is started. A working directory that is not a directory
/// is passed over.
pub fn spawn_plan(
    shell: Option<String>,
    cwd: Option<String>,
    cwd_is_dir: bool,
    cols: u32,
    rows: u32,
    host: ShellHost,
) -> (r: SpawnPlan)
    ensures
        r.shell@ == shell_of(text_view(shell), host),
        r.size.rows == extent(rows),
        r.size.cols == extent(cols),
        text_view(r.cwd) == (if cwd_is_dir {
            text_view(cwd)
        } else {
            None
        }),
        pairs(r.env@) == shell_env(r.shell@),
{
    let path: String = match shell {
        Some(s) => s,
        None => if host.windows {
            "powershell.exe".to_owned()
        } else if host.has_zsh {
            "/bin/zsh".to_owned()
        } else if host.has_bash {
            "/bin/bash".to_owned()
        } else {
            "/bin/sh".to_owned()
        },
    };
    let mut env: Vec<(String, String)> = Vec::new();
    env.push(("TERM".to_owned(), "xterm-256color".to_owned()));
    env.push(("COLORTERM".to_owned(), "truecolor".to_owned()));
    env.push(("TERM_PROGRAM".to_owned(), "NoIDE".to_owned()));
    env.push(("SHELL".to_owned(), path.clone()));
    env.push(("SHLVL".to_owned(), "1".to_owned()));
    assert(pairs(env@) =~= shell_env(path@));
    let dir = if cwd_is_dir {
        cwd
    } else {
        None
    };
    SpawnPlan { shell: path, size: pty_size(cols, rows), cwd: dir, env }
}

/// What a directory that may be missing looks like in a message.
pub open spec fn shown_dir(cwd: Option<Seq<char>>) -> Seq<char> {
    match cwd {
        Some(d) => "Some("@ + quoted(d) + ")"@,
        None => "None"@,
    }
}

/// What is said when a shell cannot be started.
pub fn spawn_failure(shell: &str, cwd: &Option<String>, e: &str) -> (r: String)
    ensures
        r@ == "Failed to spawn shell '"@ + shell@ + "' (cwd: "@ + shown_dir(text_view(*cwd))
            + "): "@ + e@,
{
    let dir = match cwd {
        Some(d) => {
            let q = quote(d.as_str());
            cat3("Some(", q.as_str(), ")")
        },
        None => "None".to_owned(),
    };
    cat6("Failed to spawn shell '", shell, "' (cwd: ", dir.as_str(), "): ", e)
}

/// The exit code of a shell, when it is one that fits.
pub open spec fn exit_number(code: u32) -> Option<i32> {
    if code <= i32::MAX as u32 {
        Some(code as i32)
    } else {
        None
    }
}

/// The exit code of a shell, when it is one that fits.
pub fn exit_code(code: u32) -> (r: Option<i32>)
    ensures
        r == exit_number(code),
{
    if code <= 0x7fff_ffff {
        Some(code as i32)
    } else {
        None
    }
}

/// Where something that is done with a terminal fails.
#[derive(Debug, Clone, Copy, PartialEq, Eq, Structural)]
pub enum PtyFault {
    Open,
    TakeWriter,
    TakeReader,
    Write,
    Flush,
    Resize,
}

/// What is said when something that is done with a terminal fails.
pub fn pty_failure(at: PtyFault, e: &str) -> (r: String)
    ensures
        r@ == (match at {
            PtyFault::Open => "Failed to open pty: "@,
            PtyFault::TakeWriter => "Failed to get pty writer: "@,
            PtyFault::TakeReader => "Failed to get pty reader: "@,
            PtyFault::Write => "Write error: "@,
            PtyFault::Flush => "Flush error: "@,
            PtyFault::Resize => "Resize error: "@,
        }) + e@,
{
    let said = match at {
        PtyFault::Open => "Failed to open pty: ",
        PtyFault::TakeWriter => "Failed to get pty writer: ",
        PtyFault::TakeReader => "Failed to get pty reader: ",
        PtyFault::Write => "Write error: ",
        PtyFault::Flush => "Flush error: ",
        PtyFault::Resize => "Resize error: ",
    };
    cat2(said, e)
}

/// What is said when a session that is just going cannot be attached to.
pub fn is_shutting_down(session_id: &str) -> (r: String)
    ensures
        r@ == "Session "@ + session_id@ + " is shutting down"@,
{
    cat3("Session ", session_id, " is shutting down")
}

/// A terminal gets the size that is asked for so long as it is one that a terminal can have,
/// and never one without rows or columns below that.
pub proof fn sizes_are_kept(n: u32)
    ensures
        1 <= n <= 65535 ==> extent(n) == n,
        extent(0) == 1,
        0 <= extent(n) <= 65535,
        n >= 1 && n <= u32::MAX - 65536 ==> extent((n + 65536) as u32) == extent(n),
{
}

/// The shell that is asked for is started as it is. Without one it is the first of zsh, bash
/// and sh that the host has, and on Windows always the same.
pub proof fn shells_are_chosen_by_the_host(shell: Seq<char>, host: ShellHost)
    ensures
        shell_of(Some(shell), host) == shell,
        host.windows ==> shell_of(None, host) == "powershell.exe"@,
        !host.windows && host.has_zsh ==> shell_of(None, host) == "/bin/zsh"@,
        !host.windows && !host.has_zsh && host.has_bash ==> shell_of(None, host) == "/bin/bash"@,
        !host.windows && !host.has_zsh && !host.has_bash ==> shell_of(None, host) == "/bin/sh"@,
{
}

/// A shell is told which shell it is, what the terminal can show and that nothing is around it.
pub proof fn shells_are_told_where_they_run(shell: Seq<char>)
    ensures
        shell_env(shell).contains(("SHELL"@, shell)),
        shell_env(shell).contains(("TERM"@, "xterm-256color"@)),
        shell_env(shell).contains(("COLORTERM"@, "truecolor"@)),
        shell_env(shell).contains(("TERM_PROGRAM"@, "NoIDE"@)),
        shell_env(shell).contains(("SHLVL"@, "1"@)),
        shell_env(shell).len() == 5,
{
    let e = shell_env(shell);
    assert(e[0] == ("TERM"@, "xterm-256color"@));
    assert(e[1] == ("COLORTERM"@, "truecolor"@));
    assert(e[2] == ("TERM_PROGRAM"@, "NoIDE"@));
    assert(e[3] == ("SHELL"@, shell));
    assert(e[4] == ("SHLVL"@, "1"@));
}

/// An exit code is told as it is wherever it is one of 32 bits with a sign, and else not at all.
pub proof fn exit_codes_are_kept(code: u32)
    ensures
        code <= 0x7fff_ffff <==> exit_number(code) is Some,
        exit_number(code) matches Some(n) ==> n == code,
{
}

} // verus!
