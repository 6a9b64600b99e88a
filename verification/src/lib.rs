//! Verified core of the cosmic-toys tool box: the colour picker's
//! rendering and sampling, the pixel font and canvas drawing, the pick
//! history file format, the COSMIC shortcut file and key-combo capture, the
//! OCR words, selection and overlay, the daemon's socket protocol, both
//! command lines, the file locations, and the settings.

pub mod applet;
pub mod canvas;
pub mod config;
pub mod daemon_cli;
pub mod font;
pub mod gui_cli;
pub mod history;
pub mod ipc;
pub mod keys;
pub mod ocr;
pub mod ocr_draw;
pub mod paths;
pub mod picker;
pub mod picker_page;
pub mod shortcut;
pub mod text;
