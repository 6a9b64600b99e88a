//! The panel applet's view of the shared settings: the history it shows and
//! which tool launchers its popup offers. The GUI is the only writer.

use vstd::prelude::*;

verus! {

/// The subset of the GUI's settings that the applet reads.
#[derive(Debug)]
pub struct Config {
    pub history: Vec<String>,
    pub applet_show_color_picker: bool,
    pub applet_show_find_mouse: bool,
    pub applet_show_screen_ruler: bool,
    pub applet_show_ocr: bool,
}

/// A fresh install: no history, only the Color Picker launcher.
pub open spec fn is_default(c: Config) -> bool {
    &&& c.history@.len() == 0
    &&& c.applet_show_color_picker
    &&& !c.applet_show_find_mouse
    &&& !c.applet_show_screen_ruler
    &&& !c.applet_show_ocr
}

impl Default for Config {
    /// Written by hand: a derived default would hide the Color Picker
    /// launcher on a fresh install that never opened the GUI's settings.
    fn default() -> (c: Self)
        ensures
            is_default(c),
    {
        Config {
            history: Vec::new(),
            applet_show_color_picker: true,
            applet_show_find_mouse: false,
            applet_show_screen_ruler: false,
            applet_show_ocr: false,
        }
    }
}

/// The applet's defaults are the GUI's defaults for the fields it reads, so
/// a fresh install looks the same from both.
pub proof fn lemma_defaults_agree(gui: crate::config::Config, applet: Config)
    requires
        crate::config::is_default(gui),
        is_default(applet),
    ensures
        applet.history@ == gui.history@,
        applet.applet_show_color_picker == gui.applet_show_color_picker,
        applet.applet_show_find_mouse == gui.applet_show_find_mouse,
        applet.applet_show_screen_ruler == gui.applet_show_screen_ruler,
        applet.applet_show_ocr == gui.applet_show_ocr,
{
    assert(applet.history@ =~= gui.history@);
}

} // verus!
