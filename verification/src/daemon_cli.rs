//! Command line of the `cosmic-toysd` daemon.
//!
//! `cosmic-toysd` serves the IPC socket forever; `--pick` runs one pick
//! that also copies and notifies (handing off to a running daemon when one
//! answers); `--quiet` (`-q`) runs one pick that only prints the hex.

use vstd::prelude::*;
use crate::text::{chars_of, same_chars};

verus! {

broadcast use vstd::string::group_string_axioms;

/// Usage text printed for `--help` and after an unknown argument.
pub const HELP: &'static str = "Usage: cosmic-toysd [--pick | --quiet]\n\n  (no flags)    Run forever as the IPC daemon.\n  --pick        One-shot pick: copy + notify, then exit.\n  --quiet       One-shot pick: print hex on stdout only.\n";

/// The flags given on the command line.
#[derive(Clone, Copy, PartialEq, Eq, Debug, Structural)]
pub struct CliFlags {
    pub pick: bool,
    pub quiet: bool,
}

impl Default for CliFlags {
    fn default() -> (r: Self)
        ensures
            r == (CliFlags { pick: false, quiet: false }),
    {
        CliFlags { pick: false, quiet: false }
    }
}

/// What the command line asks for. `S` is the text of an argument.
#[derive(Clone, Debug)]
pub enum CliOutcome<S> {
    /// Go on with these flags.
    Run(CliFlags),
    /// Print the usage and exit successfully.
    Help,
    /// Print the version and exit successfully.
    Version,
    /// Report this argument, print the usage and exit with status 2.
    Unknown(S),
}

pub open spec fn outcome_view(o: CliOutcome<String>) -> CliOutcome<Seq<char>> {
    match o {
        CliOutcome::Run(f) => CliOutcome::Run(f),
        CliOutcome::Help => CliOutcome::Help,
        CliOutcome::Version => CliOutcome::Version,
        CliOutcome::Unknown(a) => CliOutcome::Unknown(a@),
    }
}

/// The outcome of reading `args[i..]` with `flags` already set: flags
/// accumulate; the first argument that is not a flag decides.
pub open spec fn args_from(args: Seq<Seq<char>>, i: int, flags: CliFlags) -> CliOutcome<Seq<char>>
    decreases args.len() - i,
{
    if i < 0 || i >= args.len() {
        CliOutcome::Run(flags)
    } else {
        let a = args[i];
        if a == "--pick"@ {
            args_from(args, i + 1, CliFlags { pick: true, quiet: flags.quiet })
        } else if a == "--quiet"@ || a == "-q"@ {
            args_from(args, i + 1, CliFlags { pick: flags.pick, quiet: true })
        } else if a == "-h"@ || a == "--help"@ {
            CliOutcome::Help
        } else if a == "-V"@ || a == "--version"@ {
            CliOutcome::Version
        } else {
            CliOutcome::Unknown(a)
        }
    }
}

pub open spec fn arg_views(args: Seq<String>) -> Seq<Seq<char>> {
    args.map_values(|a: String| a@)
}

fn is_arg(a: &Vec<char>, lit: &str) -> (r: bool)
    ensures
        r == (a@ == lit@),
{
    same_chars(a, &chars_of(lit))
}

/// Reads the daemon's arguments (without the program name).
pub fn parse_args(args: &Vec<String>) -> (r: CliOutcome<String>)
    ensures
        outcome_view(r) == args_from(arg_views(args@), 0, CliFlags { pick: false, quiet: false }),
{
    let ghost av = arg_views(args@);
    let mut flags = CliFlags::default();
    let mut i: usize = 0;
    while i < args.len()
        invariant
            i <= args.len(),
            av == arg_views(args@),
            args_from(av, 0, CliFlags { pick: false, quiet: false }) == args_from(av, i as int, flags),
        decreases args.len() - i,
    {
        let a = chars_of(args[i].as_str());
        assert(a@ == av[i as int]);
        if is_arg(&a, "--pick") {
            flags = CliFlags { pick: true, quiet: flags.quiet };
        } else if is_arg(&a, "--quiet") || is_arg(&a, "-q") {
            flags = CliFlags { pick: flags.pick, quiet: true };
        } else if is_arg(&a, "-h") || is_arg(&a, "--help") {
            return CliOutcome::Help;
        } else if is_arg(&a, "-V") || is_arg(&a, "--version") {
            return CliOutcome::Version;
        } else {
            return CliOutcome::Unknown(args[i].clone());
        }
        i += 1;
    }
    CliOutcome::Run(flags)
}

/// What the daemon does once its flags are read.
#[derive(Clone, Copy, PartialEq, Eq, Debug, Structural)]
pub enum Mode {
    /// Serve the IPC socket until terminated.
    Serve,
    /// Pick once here; `quiet` only prints the hex.
    Oneshot { quiet: bool },
    /// Ask a running daemon to pick; when none answers, pick once here.
    RemoteFirst { quiet: bool },
}

pub fn mode_of(flags: CliFlags) -> (m: Mode)
    ensures
        flags.pick ==> m == (Mode::RemoteFirst { quiet: flags.quiet }),
        !flags.pick && flags.quiet ==> m == (Mode::Oneshot { quiet: true }),
        !flags.pick && !flags.quiet ==> m == Mode::Serve,
{
    if flags.pick {
        Mode::RemoteFirst { quiet: flags.quiet }
    } else if flags.quiet {
        Mode::Oneshot { quiet: true }
    } else {
        Mode::Serve
    }
}

} // verus!
