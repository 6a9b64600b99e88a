//! Command line of the `cosmic-toys` application.
//!
//! Without arguments the window opens; `run <tool>` (or the older
//! `--pick`, meaning `run color_picker`) triggers one tool and exits.

use vstd::prelude::*;
use crate::text::{chars_of, same_chars};

verus! {

broadcast use vstd::string::group_string_axioms;

/// Usage text printed for `--help` and after an unknown argument.
pub const HELP: &'static str = "Usage: cosmic-toys [run <tool>]\n\n  (no args)         Open the application window.\n  run <tool>        Trigger a tool one-shot (e.g. `run color_picker`).\n  --pick            Alias for `run color_picker` (legacy).\n\nHotkeys: bind in-app under Settings, or point your shortcut config at\n`cosmic-toys run <tool>` directly.\n";

/// The tool that `--pick` stands for.
pub const PICK_TOOL: &'static str = "color_picker";

/// What the command line asks for. `S` is the text of an argument.
#[derive(Clone, Debug)]
pub enum GuiCli<S> {
    /// Open the application window.
    Open,
    /// Run this tool once and exit.
    RunTool(S),
    /// Print the usage and exit successfully.
    Help,
    /// Print the version and exit successfully.
    Version,
    /// `run` was last, with no tool after it: exit with status 2.
    MissingTool,
    /// Report this argument, print the usage and exit with status 2.
    Unknown(S),
}

pub open spec fn cli_view(c: GuiCli<String>) -> GuiCli<Seq<char>> {
    match c {
        GuiCli::Open => GuiCli::Open,
        GuiCli::RunTool(t) => GuiCli::RunTool(t@),
        GuiCli::Help => GuiCli::Help,
        GuiCli::Version => GuiCli::Version,
        GuiCli::MissingTool => GuiCli::MissingTool,
        GuiCli::Unknown(a) => GuiCli::Unknown(a@),
    }
}

/// The outcome of reading `args[i..]` with `tool` chosen so far: `run`
/// takes the next argument as the tool, `--pick` chooses the colour picker,
/// a later choice replaces an earlier one, and the first other argument
/// decides.
pub open spec fn args_from(args: Seq<Seq<char>>, i: int, tool: Option<Seq<char>>) -> GuiCli<Seq<char>>
    decreases args.len() - i,
{
    if i < 0 || i >= args.len() {
        match tool {
            Some(t) => GuiCli::RunTool(t),
            None => GuiCli::Open,
        }
    } else {
        let a = args[i];
        if a == "run"@ {
            if i + 1 < args.len() {
                args_from(args, i + 2, Some(args[i + 1]))
            } else {
                GuiCli::MissingTool
            }
        } else if a == "--pick"@ {
            args_from(args, i + 1, Some(PICK_TOOL@))
        } else if a == "-h"@ || a == "--help"@ {
            GuiCli::Help
        } else if a == "-V"@ || a == "--version"@ {
            GuiCli::Version
        } else {
            GuiCli::Unknown(a)
        }
    }
}

pub open spec fn arg_views(args: Seq<String>) -> Seq<Seq<char>> {
    args.map_values(|a: String| a@)
}

fn is_arg(a: &Vec<char>, lit: &str) -> (r: bool)
    ensures
        r == (a@ == lit@),
{
    same_chars(a, &chars_of(lit))
}

/// Reads the application's arguments (without the program name).
pub fn parse_args(args: &Vec<String>) -> (r: GuiCli<String>)
    ensures
        cli_view(r) == args_from(arg_views(args@), 0, None),
{
    let ghost av = arg_views(args@);
    let mut tool: Option<String> = None;
    let mut i: usize = 0;
    while i < args.len()
        invariant
            i <= args.len(),
            av == arg_views(args@),
            args_from(av, 0, None) == args_from(
                av,
                i as int,
                match tool {
                    Some(t) => Some(t@),
                    None => None,
                },
            ),
        decreases args.len() - i,
    {
        let a = chars_of(args[i].as_str());
        assert(a@ == av[i as int]);
        if is_arg(&a, "run") {
            if i + 1 < args.len() {
                tool = Some(args[i + 1].clone());
                i += 2;
            } else {
                return GuiCli::MissingTool;
            }
        } else if is_arg(&a, "--pick") {
            tool = Some(PICK_TOOL.to_owned());
            i += 1;
        } else if is_arg(&a, "-h") || is_arg(&a, "--help") {
            return GuiCli::Help;
        } else if is_arg(&a, "-V") || is_arg(&a, "--version") {
            return GuiCli::Version;
        } else {
            return GuiCli::Unknown(args[i].clone());
        }
    }
    match tool {
        Some(t) => GuiCli::RunTool(t),
        None => GuiCli::Open,
    }
}

/// The exit status the application passes on from a `cosmic-toysd`
/// child: 0 when it succeeded, else its exit code (1 when it has none,
/// as when a signal ended it) clamped to 0..=255.
pub fn child_exit_status(success: bool, code: Option<i32>) -> (r: u8)
    ensures
        success ==> r == 0,
        !success ==> r == match code {
            Some(c) => if c < 0 {
                0
            } else if c > 255 {
                255
            } else {
                c
            },
            None => 1,
        },
{
    if success {
        return 0;
    }
    let c = match code {
        Some(c) => c,
        None => 1,
    };
    if c < 0 {
        0
    } else if c > 255 {
        255
    } else {
        c as u8
    }
}

} // verus!
