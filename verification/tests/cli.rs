use cosmic_toys::daemon_cli::{self, mode_of, CliFlags, CliOutcome, Mode};
use cosmic_toys::gui_cli::{self, child_exit_status, GuiCli};

fn args(list: &[&str]) -> Vec<String> {
    list.iter().map(|s| s.to_string()).collect()
}

#[test]
fn daemon_flags_accumulate() {
    match daemon_cli::parse_args(&args(&[])) {
        CliOutcome::Run(f) => assert_eq!(f, CliFlags { pick: false, quiet: false }),
        other => panic!("{other:?}"),
    }
    match daemon_cli::parse_args(&args(&["-q", "--pick"])) {
        CliOutcome::Run(f) => assert_eq!(f, CliFlags { pick: true, quiet: true }),
        other => panic!("{other:?}"),
    }
    match daemon_cli::parse_args(&args(&["--quiet"])) {
        CliOutcome::Run(f) => assert_eq!(f, CliFlags { pick: false, quiet: true }),
        other => panic!("{other:?}"),
    }
}

#[test]
fn daemon_stops_at_first_other_argument() {
    assert!(matches!(daemon_cli::parse_args(&args(&["--pick", "-h", "--bogus"])), CliOutcome::Help));
    assert!(matches!(daemon_cli::parse_args(&args(&["--version"])), CliOutcome::Version));
    assert!(matches!(daemon_cli::parse_args(&args(&["-V"])), CliOutcome::Version));
    match daemon_cli::parse_args(&args(&["--pick", "--bogus", "--help"])) {
        CliOutcome::Unknown(a) => assert_eq!(a, "--bogus"),
        other => panic!("{other:?}"),
    }
}

#[test]
fn daemon_modes() {
    assert_eq!(mode_of(CliFlags { pick: false, quiet: false }), Mode::Serve);
    assert_eq!(mode_of(CliFlags { pick: false, quiet: true }), Mode::Oneshot { quiet: true });
    assert_eq!(mode_of(CliFlags { pick: true, quiet: false }), Mode::RemoteFirst { quiet: false });
    assert_eq!(mode_of(CliFlags { pick: true, quiet: true }), Mode::RemoteFirst { quiet: true });
    assert_eq!(CliFlags::default(), CliFlags { pick: false, quiet: false });
}

#[test]
fn gui_run_and_pick() {
    assert!(matches!(gui_cli::parse_args(&args(&[])), GuiCli::Open));
    match gui_cli::parse_args(&args(&["run", "find_mouse"])) {
        GuiCli::RunTool(t) => assert_eq!(t, "find_mouse"),
        other => panic!("{other:?}"),
    }
    match gui_cli::parse_args(&args(&["--pick"])) {
        GuiCli::RunTool(t) => assert_eq!(t, "color_picker"),
        other => panic!("{other:?}"),
    }
    // The later choice wins; the argument after `run` is taken as is.
    match gui_cli::parse_args(&args(&["--pick", "run", "--help"])) {
        GuiCli::RunTool(t) => assert_eq!(t, "--help"),
        other => panic!("{other:?}"),
    }
}

#[test]
fn gui_errors_and_info() {
    assert!(matches!(gui_cli::parse_args(&args(&["run"])), GuiCli::MissingTool));
    assert!(matches!(gui_cli::parse_args(&args(&["--help", "run"])), GuiCli::Help));
    assert!(matches!(gui_cli::parse_args(&args(&["-V"])), GuiCli::Version));
    match gui_cli::parse_args(&args(&["--background"])) {
        GuiCli::Unknown(a) => assert_eq!(a, "--background"),
        other => panic!("{other:?}"),
    }
}

#[test]
fn child_status_is_clamped() {
    assert_eq!(child_exit_status(true, Some(0)), 0);
    assert_eq!(child_exit_status(false, Some(3)), 3);
    assert_eq!(child_exit_status(false, Some(300)), 255);
    assert_eq!(child_exit_status(false, Some(-4)), 0);
    assert_eq!(child_exit_status(false, None), 1);
}
