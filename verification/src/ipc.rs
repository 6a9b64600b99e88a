//! The daemon's socket protocol, one request per connection: the client
//! writes a tool id and a newline, the daemon answers with the tool's reply
//! and a newline. `color_picker` answers the picked hex (nothing when the
//! pick was cancelled or failed); every other tool, and an unknown id,
//! answers an empty line.

use vstd::prelude::*;
use crate::text::{
    chars_of, is_trimmed_word, is_white_space, push_char, same_chars, string_of, trim, trim_chars, trim_end,
    trim_start,
};

verus! {

broadcast use vstd::string::group_string_axioms;

pub const COLOR_PICKER: &'static str = "color_picker";

pub const FIND_MOUSE: &'static str = "find_mouse";

pub const SCREEN_RULER: &'static str = "screen_ruler";

pub const OCR: &'static str = "ocr";

/// The tools the daemon runs on request.
#[derive(Clone, Copy, PartialEq, Eq, Debug, Structural)]
pub enum Tool {
    ColorPicker,
    FindMouse,
    ScreenRuler,
    Ocr,
}

/// The tool an id names.
pub open spec fn tool_named(id: Seq<char>) -> Option<Tool> {
    if id == COLOR_PICKER@ {
        Some(Tool::ColorPicker)
    } else if id == FIND_MOUSE@ {
        Some(Tool::FindMouse)
    } else if id == SCREEN_RULER@ {
        Some(Tool::ScreenRuler)
    } else if id == OCR@ {
        Some(Tool::Ocr)
    } else {
        None
    }
}

/// Reads a request line: the id is the line trimmed of white space (the
/// newline included); gives the id and the tool it names, if any.
pub fn parse_request(line: &str) -> (r: (String, Option<Tool>))
    ensures
        r.0@ == trim(line@),
        r.1 == tool_named(trim(line@)),
{
    let id = trim_chars(&chars_of(line));
    let tool = if same_chars(&id, &chars_of(COLOR_PICKER)) {
        Some(Tool::ColorPicker)
    } else if same_chars(&id, &chars_of(FIND_MOUSE)) {
        Some(Tool::FindMouse)
    } else if same_chars(&id, &chars_of(SCREEN_RULER)) {
        Some(Tool::ScreenRuler)
    } else if same_chars(&id, &chars_of(OCR)) {
        Some(Tool::Ocr)
    } else {
        None
    };
    (string_of(&id), tool)
}

/// The daemon's reply: the picked hex, when there is one, then a newline.
pub open spec fn reply_text(picked: Option<Seq<char>>) -> Seq<char> {
    match picked {
        Some(hex) => hex.push('\n'),
        None => seq!['\n'],
    }
}

pub fn reply(picked: Option<&str>) -> (r: String)
    ensures
        r@ == reply_text(
            match picked {
                Some(h) => Some(h@),
                None => None,
            },
        ),
{
    let mut out = match picked {
        Some(h) => string_of(&chars_of(h)),
        None => String::new(),
    };
    push_char(&mut out, '\n');
    out
}

/// What a client makes of the daemon's answer to a pick: the hex, or
/// `None` when the answer is blank (the user cancelled).
pub open spec fn picked_from(answer: Seq<char>) -> Option<Seq<char>> {
    if trim(answer).len() == 0 {
        None
    } else {
        Some(trim(answer))
    }
}

pub fn read_pick_reply(answer: &str) -> (r: Option<String>)
    ensures
        match r {
            Some(s) => picked_from(answer@) == Some(s@),
            None => picked_from(answer@) is None,
        },
{
    let t = trim_chars(&chars_of(answer));
    if t.len() == 0 {
        None
    } else {
        Some(string_of(&t))
    }
}

/// A reply read back by a client gives what the daemon picked: the hex
/// when it is a trimmed, non-empty word (as a picked `#RRGGBB` is), and
/// nothing for a cancelled pick.
pub proof fn law_reply_read_back(picked: Option<Seq<char>>)
    requires
        picked matches Some(h) ==> is_trimmed_word(h),
    ensures
        picked_from(reply_text(picked)) == picked,
{
    assert(is_white_space('\n'));
    match picked {
        Some(h) => {
            let s = h.push('\n');
            assert(!is_white_space(s[0]));
            assert(trim_start(s) == s);
            assert(s.drop_last() =~= h);
            assert(trim_end(s) == trim_end(h));
            assert(trim_end(h) == h);
        },
        None => {
            let s = seq!['\n'];
            assert(trim_start(s.drop_first()) == s.drop_first());
            assert(trim_start(s) =~= Seq::<char>::empty());
        },
    }
}

} // verus!
