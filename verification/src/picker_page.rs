//! The state of the settings window's Color Picker page: whether a pick is
//! in flight, the colour shown in the hero card, and the recent picks
//! (newest first), with what each event asks the window to do next.
//!
//! Colours arrive already parsed from their hex text; parsing them, the
//! animations' clocks and the widgets are the window's part.

use vstd::prelude::*;

verus! {

/// A colour by its red, green and blue.
#[derive(Clone, Copy, PartialEq, Eq, Debug, Structural)]
pub struct Rgb {
    pub r: u8,
    pub g: u8,
    pub b: u8,
}

/// The page's state.
#[derive(Debug)]
pub struct PickerPage {
    /// A pick is in flight: further presses are ignored.
    pub picking: bool,
    /// The colour shown in the hero card.
    pub picked: Option<Rgb>,
    /// Recent picks, newest first.
    pub history: Vec<Rgb>,
}

/// What happens on the page.
#[derive(Debug)]
pub enum PageEvent {
    /// The Pick button was pressed.
    PickPressed,
    /// The pick finished: the colour, or `None` when it was cancelled or
    /// its answer was not a colour.
    PickResult(Option<Rgb>),
    /// A recent pick was clicked.
    SelectHistory(usize),
    /// The recents were cleared.
    ClearHistory,
    /// The stored history changed (a pick landed, here or by hotkey).
    HistoryLoaded(Vec<Rgb>),
}

/// What the window does after an event.
#[derive(Clone, Copy, PartialEq, Eq, Debug, Structural)]
pub struct PageEffects {
    /// Ask the daemon for a pick.
    pub request_pick: bool,
    /// Store the history.
    pub save_history: bool,
    /// Start the hero card's entry animation.
    pub animate_hero: bool,
    /// Start the newest chip's entry animation.
    pub animate_chip: bool,
}

/// The page as plain values.
pub struct PageModel {
    pub picking: bool,
    pub picked: Option<Rgb>,
    pub history: Seq<Rgb>,
}

pub open spec fn model(p: PickerPage) -> PageModel {
    PageModel { picking: p.picking, picked: p.picked, history: p.history@ }
}

pub open spec fn no_effects() -> PageEffects {
    PageEffects { request_pick: false, save_history: false, animate_hero: false, animate_chip: false }
}

/// The newest of a list of picks.
pub open spec fn newest(h: Seq<Rgb>) -> Option<Rgb> {
    if h.len() > 0 {
        Some(h[0])
    } else {
        None
    }
}

/// The page after an event, and what the window does next.
pub open spec fn after_event(s: PageModel, ev: PageEvent) -> (PageModel, PageEffects) {
    match ev {
        PageEvent::PickPressed => if s.picking {
            (s, no_effects())
        } else {
            (PageModel { picking: true, ..s }, PageEffects { request_pick: true, ..no_effects() })
        },
        PageEvent::PickResult(c) => match c {
            Some(c) => (
                PageModel { picking: false, picked: Some(c), ..s },
                PageEffects { animate_hero: true, ..no_effects() },
            ),
            None => (PageModel { picking: false, ..s }, no_effects()),
        },
        PageEvent::SelectHistory(i) => if i < s.history.len() {
            (PageModel { picked: Some(s.history[i as int]), ..s }, no_effects())
        } else {
            (s, no_effects())
        },
        PageEvent::ClearHistory => (
            PageModel { history: Seq::<Rgb>::empty(), ..s },
            PageEffects { save_history: true, ..no_effects() },
        ),
        PageEvent::HistoryLoaded(v) => {
            let h = v@;
            let head_changed = newest(h) != newest(s.history);
            let new_top = newest(h) is Some && newest(h) != s.picked;
            (
                PageModel {
                    history: h,
                    picked: if new_top {
                        newest(h)
                    } else {
                        s.picked
                    },
                    ..s
                },
                PageEffects {
                    animate_hero: new_top,
                    animate_chip: head_changed && h.len() > 0,
                    ..no_effects()
                },
            )
        },
    }
}

fn same_color(a: Option<Rgb>, b: Option<Rgb>) -> (r: bool)
    ensures
        r == (a == b),
{
    match (a, b) {
        (Some(x), Some(y)) => x.r == y.r && x.g == y.g && x.b == y.b,
        (None, None) => true,
        _ => false,
    }
}

fn newest_of(h: &Vec<Rgb>) -> (r: Option<Rgb>)
    ensures
        r == newest(h@),
{
    if h.len() > 0 {
        Some(h[0])
    } else {
        None
    }
}

impl PickerPage {
    /// A page for the given recents, showing the newest of them, with no
    /// pick in flight.
    pub fn new(history: Vec<Rgb>) -> (p: PickerPage)
        ensures
            !p.picking,
            p.picked == newest(history@),
            p.history@ == history@,
    {
        let picked = newest_of(&history);
        PickerPage { picking: false, picked, history }
    }

    /// Applies an event; returns what the window does next. Presses while
    /// a pick is in flight are ignored; a finished pick shows its colour;
    /// clicking a recent shows it; a changed history shows its newest pick
    /// when that is new.
    pub fn update(&mut self, ev: PageEvent) -> (fx: PageEffects)
        ensures
            (model(*final(self)), fx) == after_event(model(*old(self)), ev),
    {
        match ev {
            PageEvent::PickPressed => {
                if self.picking {
                    return PageEffects {
                        request_pick: false,
                        save_history: false,
                        animate_hero: false,
                        animate_chip: false,
                    };
                }
                self.picking = true;
                PageEffects { request_pick: true, save_history: false, animate_hero: false, animate_chip: false }
            },
            PageEvent::PickResult(c) => {
                self.picking = false;
                match c {
                    Some(c) => {
                        self.picked = Some(c);
                        PageEffects {
                            request_pick: false,
                            save_history: false,
                            animate_hero: true,
                            animate_chip: false,
                        }
                    },
                    None => PageEffects {
                        request_pick: false,
                        save_history: false,
                        animate_hero: false,
                        animate_chip: false,
                    },
                }
            },
            PageEvent::SelectHistory(i) => {
                if i < self.history.len() {
                    self.picked = Some(self.history[i]);
                }
                PageEffects { request_pick: false, save_history: false, animate_hero: false, animate_chip: false }
            },
            PageEvent::ClearHistory => {
                self.history = Vec::new();
                PageEffects { request_pick: false, save_history: true, animate_hero: false, animate_chip: false }
            },
            PageEvent::HistoryLoaded(v) => {
                let top = newest_of(&v);
                let head_changed = !same_color(top, newest_of(&self.history));
                let new_top = top.is_some() && !same_color(top, self.picked);
                let nonempty = v.len() > 0;
                self.history = v;
                if new_top {
                    self.picked = top;
                }
                PageEffects {
                    request_pick: false,
                    save_history: false,
                    animate_hero: new_top,
                    animate_chip: head_changed && nonempty,
                }
            },
        }
    }
}

/// A press starts exactly one pick: a second press while it is in flight
/// asks for nothing and changes nothing, and the finished pick shows its
/// colour and lets the next press through.
pub proof fn law_pick_debounce(s: PageModel, c: Rgb)
    requires
        !s.picking,
    ensures
        ({
            let (s1, fx1) = after_event(s, PageEvent::PickPressed);
            let (s2, fx2) = after_event(s1, PageEvent::PickPressed);
            let (s3, fx3) = after_event(s2, PageEvent::PickResult(Some(c)));
            &&& fx1.request_pick && s1.picking
            &&& fx2 == no_effects() && s2 == s1
            &&& !s3.picking && s3.picked == Some(c) && s3.history == s.history
            &&& after_event(s3, PageEvent::PickPressed).1.request_pick
        }),
{
}

} // verus!
