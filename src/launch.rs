//! How a built command line is started: through a plain shell, or through the host
//! escape helper when running inside a Flatpak sandbox.
use vstd::prelude::*;

use crate::catalog::{lower_of, lowercase};
use crate::command::{build_command, command_spec, opt_str_view, trim_str, trim_ws};
use crate::model::AppInfo;
use crate::text::same_chars;

verus! {

/// Whether the process runs inside a Flatpak sandbox, given whether `FLATPAK_ID` is set
/// and the value of `container`, if any: the first is enough, else `container` must read
/// `flatpak` once lowercased and trimmed.
pub fn is_flatpak(flatpak_id_set: bool, container: Option<&str>) -> (r: bool)
    ensures
        r == (flatpak_id_set || (container matches Some(c) && trim_ws(lower_of(c@)) == "flatpak"@)),
{
    if flatpak_id_set {
        return true;
    }
    match container {
        Some(c) => {
            let lower = lowercase(c);
            let trimmed = trim_str(lower.as_str());
            same_chars(trimmed.as_str(), "flatpak")
        },
        None => false,
    }
}

/// A process to start: the program, its arguments and the directory it starts in.
pub struct LaunchPlan {
    pub program: String,
    pub args: Vec<String>,
    pub working_dir: String,
}

/// The program that runs a command line.
pub open spec fn launch_program(sandboxed: bool) -> Seq<char> {
    if sandboxed {
        "flatpak-spawn"@
    } else {
        "sh"@
    }
}

/// Its arguments: `sh -c <command>`, behind `--host` when escaping the sandbox.
pub open spec fn launch_args(sandboxed: bool, command: Seq<char>) -> Seq<Seq<char>> {
    if sandboxed {
        seq!["--host"@, "sh"@, "-c"@, command]
    } else {
        seq!["-c"@, command]
    }
}

pub open spec fn string_views(v: Seq<String>) -> Seq<Seq<char>> {
    v.map_values(|s: String| s@)
}

/// The directory a launched application starts in: the home directory, else `/tmp`.
pub open spec fn launch_dir(home: Option<Seq<char>>) -> Seq<char> {
    match home {
        Some(h) => h,
        None => "/tmp"@,
    }
}

pub open spec fn opt_string_view(o: Option<String>) -> Option<Seq<char>> {
    match o {
        Some(s) => Some(s@),
        None => None,
    }
}

/// How to start `command`: nothing for an empty command; otherwise `sh -c <command>`,
/// or `flatpak-spawn --host sh -c <command>` inside the sandbox, in the home directory.
pub fn plan_launch(command: &str, sandboxed: bool, home: Option<String>) -> (r: Option<
    LaunchPlan,
>)
    ensures
        r is None <==> command@.len() == 0,
        r matches Some(p) ==> {
            &&& p.program@ == launch_program(sandboxed)
            &&& string_views(p.args@) == launch_args(sandboxed, command@)
            &&& p.working_dir@ == launch_dir(opt_string_view(home))
        },
{
    if command.unicode_len() == 0 {
        return None;
    }
    let mut args: Vec<String> = Vec::new();
    let program = if sandboxed {
        args.push(String::from_str("--host"));
        args.push(String::from_str("sh"));
        String::from_str("flatpak-spawn")
    } else {
        String::from_str("sh")
    };
    args.push(String::from_str("-c"));
    args.push(String::from_str(command));
    let working_dir = match home {
        Some(h) => h,
        None => String::from_str("/tmp"),
    };
    assert(string_views(args@) =~= launch_args(sandboxed, command@));
    Some(LaunchPlan { program, args, working_dir })
}

/// Everything that launching a selected application decides: no selection gives nothing;
/// otherwise the command is built from the record and the custom arguments, and planned
/// as [`plan_launch`] does.
pub fn launch_app(
    app: Option<AppInfo>,
    custom_args: Option<&str>,
    available: &Vec<bool>,
    sandboxed: bool,
    home: Option<String>,
) -> (r: Option<LaunchPlan>)
    ensures
        app is None ==> r is None,
        app matches Some(a) ==> {
            let cmd = command_spec(a.exec_template@, opt_str_view(custom_args), a.terminal, available@);
            &&& r is None <==> cmd.len() == 0
            &&& r matches Some(p) ==> {
                &&& p.program@ == launch_program(sandboxed)
                &&& string_views(p.args@) == launch_args(sandboxed, cmd)
                &&& p.working_dir@ == launch_dir(opt_string_view(home))
            }
        },
{
    match app {
        Some(a) => {
            let cmd = build_command(&a, custom_args, available);
            plan_launch(cmd.as_str(), sandboxed, home)
        },
        None => None,
    }
}

} // verus!
