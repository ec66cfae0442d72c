//! Commands as plain data: what to run, with which arguments, where.
use vstd::prelude::*;
use crate::path::{FsPath, PathView};
use crate::text::copy_string;

verus! {

/// A process to start.
pub struct CommandSpec {
    pub program: String,
    pub args: Vec<String>,
    /// Working directory, when one is set.
    pub cwd: Option<FsPath>,
    /// Extra environment variables.
    pub env: Vec<(String, String)>,
}

/// The views of a list of strings.
pub open spec fn views(v: Seq<String>) -> Seq<Seq<char>> {
    v.map_values(|s: String| s@)
}

impl CommandSpec {
    pub open spec fn program_view(&self) -> Seq<char> {
        self.program@
    }

    pub open spec fn args_view(&self) -> Seq<Seq<char>> {
        views(self.args@)
    }

    pub open spec fn cwd_view(&self) -> Option<PathView> {
        match self.cwd {
            Some(p) => Some(p@),
            None => None,
        }
    }

    pub open spec fn env_view(&self) -> Seq<(Seq<char>, Seq<char>)> {
        self.env@.map_values(|e: (String, String)| (e.0@, e.1@))
    }
}

/// The shell that runs a script: `cmd /C` on Windows, `sh -c` elsewhere.
pub open spec fn shell_spec(script: Seq<char>, windows: bool) -> (Seq<char>, Seq<Seq<char>>) {
    if windows {
        ("cmd"@, seq!["/C"@, script])
    } else {
        ("sh"@, seq!["-c"@, script])
    }
}

/// A command that runs `script` through the platform's shell.
pub fn shell_command(script: &str, windows: bool) -> (c: CommandSpec)
    ensures
        (c.program_view(), c.args_view()) == shell_spec(script@, windows),
        c.cwd is None,
        c.env@.len() == 0,
{
    let mut args: Vec<String> = Vec::new();
    let program = if windows {
        args.push(copy_string("/C"));
        copy_string("cmd")
    } else {
        args.push(copy_string("-c"));
        copy_string("sh")
    };
    args.push(copy_string(script));
    let c = CommandSpec { program, args, cwd: None, env: Vec::new() };
    assert(c.args_view() =~= shell_spec(script@, windows).1);
    c
}

} // verus!
