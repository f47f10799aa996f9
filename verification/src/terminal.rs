//! The pure decisions of the terminal subsystem: the known Windows shells,
//! per-shell arguments, and default-shell selection. Spawning, probing and
//! pseudo-terminal I/O live with the caller that owns the processes.

use vstd::prelude::*;

use crate::text::{contains_sub, str_contains};

verus! {

/// The id a spawned terminal session is addressed by, and the data it emits.
#[derive(Debug, Clone)]
pub struct PtySpawnResult {
    pub pty_id: String,
}

#[derive(Debug, Clone)]
pub struct PtyOutput {
    pub pty_id: String,
    pub data: String,
}

/// One known Windows shell: its command, the arguments that probe its
/// availability, and the arguments it is started with.
#[derive(Debug, Clone)]
pub struct WindowsShell {
    pub command: String,
    pub version_args: Vec<String>,
    pub shell_args: Vec<String>,
}

/// The Windows shells tried in preference order: PowerShell Core, Windows
/// PowerShell, then cmd.exe, whose availability probe is `/c exit 0` because
/// `cmd.exe /?` exits nonzero.
pub fn windows_shells() -> (r: Vec<WindowsShell>)
    ensures
        r@.len() == 3,
        r@[0].command@ == "pwsh"@,
        r@[0].version_args@.len() == 1 && r@[0].version_args@[0]@ == "--version"@,
        r@[0].shell_args@.len() == 2 && r@[0].shell_args@[0]@ == "-NoLogo"@
            && r@[0].shell_args@[1]@ == "-NoExit"@,
        r@[1].command@ == "powershell"@,
        r@[1].version_args@.len() == 1 && r@[1].version_args@[0]@ == "-Version"@,
        r@[1].shell_args@.len() == 2 && r@[1].shell_args@[0]@ == "-NoLogo"@
            && r@[1].shell_args@[1]@ == "-NoExit"@,
        r@[2].command@ == "cmd.exe"@,
        r@[2].version_args@.len() == 3 && r@[2].version_args@[0]@ == "/c"@
            && r@[2].version_args@[1]@ == "exit"@ && r@[2].version_args@[2]@ == "0"@,
        r@[2].shell_args@.len() == 0,
{
    let mut pwsh_probe: Vec<String> = Vec::new();
    pwsh_probe.push(String::from_str("--version"));
    let mut ps_probe: Vec<String> = Vec::new();
    ps_probe.push(String::from_str("-Version"));
    let mut cmd_probe: Vec<String> = Vec::new();
    cmd_probe.push(String::from_str("/c"));
    cmd_probe.push(String::from_str("exit"));
    cmd_probe.push(String::from_str("0"));
    let mut ps_args: Vec<String> = Vec::new();
    ps_args.push(String::from_str("-NoLogo"));
    ps_args.push(String::from_str("-NoExit"));
    let mut pwsh_args: Vec<String> = Vec::new();
    pwsh_args.push(String::from_str("-NoLogo"));
    pwsh_args.push(String::from_str("-NoExit"));
    let mut shells: Vec<WindowsShell> = Vec::new();
    shells.push(
        WindowsShell {
            command: String::from_str("pwsh"),
            version_args: pwsh_probe,
            shell_args: pwsh_args,
        },
    );
    shells.push(
        WindowsShell {
            command: String::from_str("powershell"),
            version_args: ps_probe,
            shell_args: ps_args,
        },
    );
    shells.push(
        WindowsShell {
            command: String::from_str("cmd.exe"),
            version_args: cmd_probe,
            shell_args: Vec::new(),
        },
    );
    shells
}

/// The start arguments a shell name gets: the PowerShells run interactive and
/// quiet, anything else starts bare.
pub open spec fn spec_shell_args(shell: Seq<char>) -> Seq<Seq<char>> {
    if contains_sub(shell, "pwsh"@) {
        seq!["-NoLogo"@, "-NoExit"@]
    } else if contains_sub(shell, "powershell"@) {
        seq!["-NoLogo"@, "-NoExit"@]
    } else {
        Seq::empty()
    }
}

/// The start arguments for a shell name, as `spec_shell_args` says.
pub fn get_shell_args(shell: &str) -> (r: Vec<String>)
    ensures
        r@.len() == spec_shell_args(shell@).len(),
        forall|i: int| 0 <= i < r@.len() ==> r@[i]@ == spec_shell_args(shell@)[i],
{
    if str_contains(shell, "pwsh") || str_contains(shell, "powershell") {
        let mut args: Vec<String> = Vec::new();
        args.push(String::from_str("-NoLogo"));
        args.push(String::from_str("-NoExit"));
        args
    } else {
        Vec::new()
    }
}

/// The shell one session runs: a user preference other than `auto` wins,
/// else the environment's shell, else `/bin/bash`. The caller reads the
/// environment and hands its value in.
pub open spec fn spec_default_shell(preferred: Option<Seq<char>>, env_shell: Option<Seq<char>>)
    -> Seq<char> {
    match preferred {
        Some(p) => if p != "auto"@ {
            p
        } else {
            match env_shell {
                Some(e) => e,
                None => "/bin/bash"@,
            }
        },
        None => match env_shell {
            Some(e) => e,
            None => "/bin/bash"@,
        },
    }
}

/// Picks the default shell, as `spec_default_shell` says.
pub fn get_default_shell(preferred_shell: Option<&str>, env_shell: Option<&str>) -> (r: String)
    ensures
        r@ == spec_default_shell(
            match preferred_shell {
                Some(p) => Some(p@),
                None => None,
            },
            match env_shell {
                Some(e) => Some(e@),
                None => None,
            },
        ),
{
    match preferred_shell {
        Some(p) => {
            if !crate::text::str_eq(p, "auto") {
                return String::from_str(p);
            }
        },
        None => {},
    }
    match env_shell {
        Some(e) => String::from_str(e),
        None => String::from_str("/bin/bash"),
    }
}

} // verus!
