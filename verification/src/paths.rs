//! Where the tool box keeps its files, computed from the environment
//! values the caller reads (`XDG_CONFIG_HOME`, `HOME`, `XDG_RUNTIME_DIR`;
//! `None` when unset or not Unicode).

use vstd::prelude::*;
use crate::text::{chars_of, extend_chars, string_of};

verus! {

broadcast use vstd::string::group_string_axioms;

/// The GUI's settings namespace, shared with the daemon and the applet.
pub const APP_ID: &'static str = "com.pyxyll.CosmicToys";

/// Version directory of the settings namespace.
pub const CONFIG_VERSION: &'static str = "v1";

/// Name of the autostart entry.
pub const AUTOSTART_FILENAME: &'static str = "com.pyxyll.CosmicToys.desktop";

/// The autostart entry: launches the GUI in the background at login.
pub const DESKTOP_ENTRY: &'static str = "[Desktop Entry]\nType=Application\nName=Cosmic Color Picker\nComment=Native Wayland color picker for COSMIC\nExec=cosmic-toys --background\nIcon=color-select-symbolic\nNoDisplay=true\nX-GNOME-Autostart-enabled=true\n";

/// `PathBuf::join` on Unix: an absolute `comp` replaces `base`; otherwise
/// `comp` is appended, with a `/` unless `base` is empty or ends in one.
pub open spec fn join_path(base: Seq<char>, comp: Seq<char>) -> Seq<char> {
    if comp.len() > 0 && comp[0] == '/' {
        comp
    } else if base.len() == 0 || base.last() == '/' {
        base + comp
    } else {
        base.push('/') + comp
    }
}

/// `base` joined with `comp`.
pub fn join(base: &String, comp: &str) -> (r: String)
    ensures
        r@ == join_path(base@, comp@),
{
    let c = chars_of(comp);
    if c.len() > 0 && c[0] == '/' {
        return string_of(&c);
    }
    let mut b = chars_of(base.as_str());
    if !(b.len() == 0 || b[b.len() - 1] == '/') {
        b.push('/');
    }
    extend_chars(&mut b, &c);
    string_of(&b)
}

pub open spec fn unwrap_or_empty(v: Option<Seq<char>>) -> Seq<char> {
    match v {
        Some(s) => s,
        None => Seq::<char>::empty(),
    }
}

pub open spec fn opt_view(v: Option<&str>) -> Option<Seq<char>> {
    match v {
        Some(s) => Some(s@),
        None => None,
    }
}

/// `$XDG_CONFIG_HOME`, else `$HOME/.config` (an unset `HOME` reads as
/// empty).
pub open spec fn config_home_of(xdg_config_home: Option<Seq<char>>, home: Option<Seq<char>>) -> Seq<
    char,
> {
    match xdg_config_home {
        Some(x) => x,
        None => join_path(unwrap_or_empty(home), ".config"@),
    }
}

/// The user's configuration directory.
pub fn config_home(xdg_config_home: Option<&str>, home: Option<&str>) -> (r: String)
    ensures
        r@ == config_home_of(opt_view(xdg_config_home), opt_view(home)),
{
    match xdg_config_home {
        Some(x) => x.to_owned(),
        None => {
            let h = match home {
                Some(h) => h.to_owned(),
                None => String::new(),
            };
            join(&h, ".config")
        },
    }
}

/// The directory of the shared settings namespace.
pub open spec fn settings_dir_of(xdg_config_home: Option<Seq<char>>, home: Option<Seq<char>>) -> Seq<
    char,
> {
    join_path(
        join_path(join_path(config_home_of(xdg_config_home, home), "cosmic"@), APP_ID@),
        CONFIG_VERSION@,
    )
}

/// `<config>/cosmic/com.pyxyll.CosmicToys/v1`: where the settings and the
/// pick history live.
pub fn settings_dir(xdg_config_home: Option<&str>, home: Option<&str>) -> (r: String)
    ensures
        r@ == settings_dir_of(opt_view(xdg_config_home), opt_view(home)),
{
    let base = config_home(xdg_config_home, home);
    let cosmic = join(&base, "cosmic");
    let app = join(&cosmic, APP_ID);
    join(&app, CONFIG_VERSION)
}

/// The pick history file: the `history` field of the settings namespace.
pub fn history_path(xdg_config_home: Option<&str>, home: Option<&str>) -> (r: String)
    ensures
        r@ == join_path(settings_dir_of(opt_view(xdg_config_home), opt_view(home)), "history"@),
{
    let dir = settings_dir(xdg_config_home, home);
    join(&dir, "history")
}

/// The settings directory of the tool box before its rename, which a first
/// run copies over.
pub fn legacy_settings_dir(xdg_config_home: Option<&str>, home: Option<&str>) -> (r: String)
    ensures
        r@ == join_path(
            config_home_of(opt_view(xdg_config_home), opt_view(home)),
            "cosmic/com.pyxyll.CosmicColorPicker/v1"@,
        ),
{
    let base = config_home(xdg_config_home, home);
    join(&base, "cosmic/com.pyxyll.CosmicColorPicker/v1")
}

/// The autostart entry of the tool box before its rename.
pub fn legacy_autostart_entry(xdg_config_home: Option<&str>, home: Option<&str>) -> (r: String)
    ensures
        r@ == join_path(
            config_home_of(opt_view(xdg_config_home), opt_view(home)),
            "autostart/com.pyxyll.CosmicColorPicker.desktop"@,
        ),
{
    let base = config_home(xdg_config_home, home);
    join(&base, "autostart/com.pyxyll.CosmicColorPicker.desktop")
}

/// The directory the desktop session reads autostart entries from.
pub fn autostart_dir(xdg_config_home: Option<&str>, home: Option<&str>) -> (r: String)
    ensures
        r@ == join_path(config_home_of(opt_view(xdg_config_home), opt_view(home)), "autostart"@),
{
    let base = config_home(xdg_config_home, home);
    join(&base, "autostart")
}

/// `<config>/autostart/com.pyxyll.CosmicToys.desktop`.
pub fn entry_path(xdg_config_home: Option<&str>, home: Option<&str>) -> (r: String)
    ensures
        r@ == join_path(
            join_path(config_home_of(opt_view(xdg_config_home), opt_view(home)), "autostart"@),
            AUTOSTART_FILENAME@,
        ),
{
    let dir = autostart_dir(xdg_config_home, home);
    join(&dir, AUTOSTART_FILENAME)
}

/// `<config>/cosmic/com.system76.CosmicSettings.Shortcuts/v1/custom`: the
/// COSMIC custom-shortcuts file.
pub fn shortcuts_path(xdg_config_home: Option<&str>, home: Option<&str>) -> (r: String)
    ensures
        r@ == join_path(
            join_path(
                join_path(
                    join_path(config_home_of(opt_view(xdg_config_home), opt_view(home)), "cosmic"@),
                    "com.system76.CosmicSettings.Shortcuts"@,
                ),
                "v1"@,
            ),
            "custom"@,
        ),
{
    let base = config_home(xdg_config_home, home);
    let cosmic = join(&base, "cosmic");
    let shortcuts = join(&cosmic, "com.system76.CosmicSettings.Shortcuts");
    let version = join(&shortcuts, "v1");
    join(&version, "custom")
}

/// The daemon's socket: `cosmic-toysd.sock` in `$XDG_RUNTIME_DIR`, else in
/// `/tmp`.
pub fn socket_path(xdg_runtime_dir: Option<&str>) -> (r: String)
    ensures
        r@ == join_path(
            match xdg_runtime_dir {
                Some(d) => d@,
                None => "/tmp"@,
            },
            "cosmic-toysd.sock"@,
        ),
{
    let base = match xdg_runtime_dir {
        Some(d) => d.to_owned(),
        None => "/tmp".to_owned(),
    };
    join(&base, "cosmic-toysd.sock")
}

} // verus!
