//! Turning a key press captured in the settings window into the combo text
//! stored in COSMIC's shortcuts file (`Super+Shift+C`).
//!
//! The window toolkit's key type is modelled by [`PressedKey`]: the logic
//! reads only whether a key is a character, one of the named keys below, or
//! unidentified.

use vstd::prelude::*;
use crate::shortcut::{
    canonical_modifier, combo_parts, is_canonical_modifier, lemma_canon_modifiers_fixed,
    lemma_modifier_name_facts, lemma_trimmed_words, normalised_key, parsed_combo,
};
use crate::text::{
    chars_of, is_trimmed_word, join, join_chars, lemma_byte_len_one, lemma_split_join,
    lemma_trim_word, lower, same_chars, string_of, views,
};

verus! {

broadcast use vstd::string::group_string_axioms;

/// The named (non-character) keys the capture logic tells apart; every
/// other named key is `Other`.
#[derive(Clone, Copy, PartialEq, Eq, Debug, Structural)]
pub enum NamedKey {
    ArrowDown,
    ArrowUp,
    ArrowLeft,
    ArrowRight,
    Enter,
    Escape,
    Tab,
    Backspace,
    Delete,
    Insert,
    Home,
    End,
    PageUp,
    PageDown,
    F1,
    F2,
    F3,
    F4,
    F5,
    F6,
    F7,
    F8,
    F9,
    F10,
    F11,
    F12,
    PrintScreen,
    Shift,
    Control,
    Alt,
    Super,
    Meta,
    AltGraph,
    CapsLock,
    NumLock,
    ScrollLock,
    Symbol,
    Other,
}

/// A key as the window toolkit reports it.
#[derive(Clone, Debug)]
pub enum PressedKey {
    /// A key that types text; space arrives as `" "`.
    Character(String),
    Named(NamedKey),
    Unidentified,
}

/// The modifier keys held during a key press.
#[derive(Clone, Copy, PartialEq, Eq, Debug, Structural)]
pub struct KeyModifiers {
    pub logo: bool,
    pub control: bool,
    pub alt: bool,
    pub shift: bool,
}

impl KeyModifiers {
    /// No modifier held.
    pub fn is_empty(&self) -> (r: bool)
        ensures
            r == !(self.logo || self.control || self.alt || self.shift),
    {
        !(self.logo || self.control || self.alt || self.shift)
    }
}

/// A modifier key pressed on its own (including the lock keys).
pub open spec fn is_modifier(key: PressedKey) -> bool {
    match key {
        PressedKey::Named(n) => match n {
            NamedKey::Shift | NamedKey::Control | NamedKey::Alt | NamedKey::Super | NamedKey::Meta
            | NamedKey::AltGraph | NamedKey::CapsLock | NamedKey::NumLock | NamedKey::ScrollLock
            | NamedKey::Symbol => true,
            _ => false,
        },
        _ => false,
    }
}

pub fn is_modifier_key(key: &PressedKey) -> (r: bool)
    ensures
        r == is_modifier(*key),
{
    match key {
        PressedKey::Named(n) => match n {
            NamedKey::Shift | NamedKey::Control | NamedKey::Alt | NamedKey::Super | NamedKey::Meta
            | NamedKey::AltGraph | NamedKey::CapsLock | NamedKey::NumLock | NamedKey::ScrollLock
            | NamedKey::Symbol => true,
            _ => false,
        },
        _ => false,
    }
}

/// The name COSMIC accepts in its shortcut config for a named key; `None`
/// for a key it has no name for.
pub open spec fn named_key_name(n: NamedKey) -> Option<Seq<char>> {
    match n {
        NamedKey::ArrowDown => Some("Down"@),
        NamedKey::ArrowUp => Some("Up"@),
        NamedKey::ArrowLeft => Some("Left"@),
        NamedKey::ArrowRight => Some("Right"@),
        NamedKey::Enter => Some("Return"@),
        NamedKey::Escape => Some("Escape"@),
        NamedKey::Tab => Some("Tab"@),
        NamedKey::Backspace => Some("Backspace"@),
        NamedKey::Delete => Some("Delete"@),
        NamedKey::Insert => Some("Insert"@),
        NamedKey::Home => Some("Home"@),
        NamedKey::End => Some("End"@),
        NamedKey::PageUp => Some("PageUp"@),
        NamedKey::PageDown => Some("PageDown"@),
        NamedKey::F1 => Some("F1"@),
        NamedKey::F2 => Some("F2"@),
        NamedKey::F3 => Some("F3"@),
        NamedKey::F4 => Some("F4"@),
        NamedKey::F5 => Some("F5"@),
        NamedKey::F6 => Some("F6"@),
        NamedKey::F7 => Some("F7"@),
        NamedKey::F8 => Some("F8"@),
        NamedKey::F9 => Some("F9"@),
        NamedKey::F10 => Some("F10"@),
        NamedKey::F11 => Some("F11"@),
        NamedKey::F12 => Some("F12"@),
        NamedKey::PrintScreen => Some("Print"@),
        _ => None,
    }
}

pub fn named_key_str(n: NamedKey) -> (r: Option<&'static str>)
    ensures
        match r {
            Some(s) => named_key_name(n) == Some(s@),
            None => named_key_name(n) is None,
        },
{
    match n {
        NamedKey::ArrowDown => Some("Down"),
        NamedKey::ArrowUp => Some("Up"),
        NamedKey::ArrowLeft => Some("Left"),
        NamedKey::ArrowRight => Some("Right"),
        NamedKey::Enter => Some("Return"),
        NamedKey::Escape => Some("Escape"),
        NamedKey::Tab => Some("Tab"),
        NamedKey::Backspace => Some("Backspace"),
        NamedKey::Delete => Some("Delete"),
        NamedKey::Insert => Some("Insert"),
        NamedKey::Home => Some("Home"),
        NamedKey::End => Some("End"),
        NamedKey::PageUp => Some("PageUp"),
        NamedKey::PageDown => Some("PageDown"),
        NamedKey::F1 => Some("F1"),
        NamedKey::F2 => Some("F2"),
        NamedKey::F3 => Some("F3"),
        NamedKey::F4 => Some("F4"),
        NamedKey::F5 => Some("F5"),
        NamedKey::F6 => Some("F6"),
        NamedKey::F7 => Some("F7"),
        NamedKey::F8 => Some("F8"),
        NamedKey::F9 => Some("F9"),
        NamedKey::F10 => Some("F10"),
        NamedKey::F11 => Some("F11"),
        NamedKey::F12 => Some("F12"),
        NamedKey::PrintScreen => Some("Print"),
        _ => None,
    }
}

/// `str::to_uppercase` of `s`: its Unicode upper-case mapping.
pub uninterp spec fn uppercased(s: Seq<char>) -> Seq<char>;

/// `str::to_uppercase`. The result is whatever Unicode's full upper-case
/// mapping of `s` gives (named `uppercased`); nothing more of it is stated.
#[verifier::external_body]
fn to_uppercase(s: &str) -> (r: String)
    ensures
        r@ == uppercased(s@),
{
    s.to_uppercase()
}

/// The modifier names of a combo in the order they are written: `Super`,
/// `Ctrl`, `Alt`, `Shift`, each only when held.
pub open spec fn modifier_names(m: KeyModifiers) -> Seq<Seq<char>> {
    let a = if m.logo {
        seq!["Super"@]
    } else {
        Seq::<Seq<char>>::empty()
    };
    let b = if m.control {
        a.push("Ctrl"@)
    } else {
        a
    };
    let c = if m.alt {
        b.push("Alt"@)
    } else {
        b
    };
    if m.shift {
        c.push("Shift"@)
    } else {
        c
    }
}

/// The key part of a combo: `space` for the space bar, the upper-cased
/// text of any other character key, COSMIC's name for a named key; `None`
/// for a key that cannot be bound.
pub open spec fn key_text(key: PressedKey) -> Option<Seq<char>> {
    match key {
        PressedKey::Character(c) => if c@ == " "@ {
            Some("space"@)
        } else {
            Some(uppercased(c@))
        },
        PressedKey::Named(n) => named_key_name(n),
        PressedKey::Unidentified => None,
    }
}

/// The combo text for a key press: the held modifiers and the key joined
/// with `+`, or the empty text for a key that cannot be bound.
pub open spec fn combo_of(m: KeyModifiers, key: PressedKey) -> Seq<char> {
    match key_text(key) {
        Some(t) => join(modifier_names(m).push(t), "+"@),
        None => Seq::<char>::empty(),
    }
}

/// Formats a (modifiers, key) pair in the human and COSMIC-config form,
/// `Super+Shift+C`; the empty string for keys that cannot be mapped
/// (unidentified keys, named keys COSMIC has no name for).
pub fn format_combo(mods: KeyModifiers, key: &PressedKey) -> (r: String)
    ensures
        r@ == combo_of(mods, *key),
{
    let key_str: Vec<char> = match key {
        PressedKey::Character(c) => {
            let typed = chars_of(c.as_str());
            if same_chars(&typed, &chars_of(" ")) {
                chars_of("space")
            } else {
                let up = to_uppercase(c.as_str());
                chars_of(up.as_str())
            }
        },
        PressedKey::Named(n) => match named_key_str(*n) {
            Some(s) => chars_of(s),
            None => return String::new(),
        },
        PressedKey::Unidentified => return String::new(),
    };
    let mut parts: Vec<Vec<char>> = Vec::new();
    if mods.logo {
        parts.push(chars_of("Super"));
    }
    if mods.control {
        parts.push(chars_of("Ctrl"));
    }
    if mods.alt {
        parts.push(chars_of("Alt"));
    }
    if mods.shift {
        parts.push(chars_of("Shift"));
    }
    parts.push(key_str);
    assert(views(parts@) =~= modifier_names(mods).push(key_text(*key)->0));
    let joined = join_chars(&parts, &chars_of("+"));
    string_of(&joined)
}

/// What a key press does while a shortcut is being captured.
#[derive(Clone, Debug)]
pub enum CaptureAction {
    /// A modifier on its own: keep waiting for the real key.
    Wait,
    /// Escape without modifiers: stop capturing and restore the previous
    /// binding.
    Cancel,
    /// A key that cannot be bound: stop, report "Unsupported key", and
    /// restore the previous binding.
    Unsupported,
    /// Bind this combo.
    Bind(String),
}

/// The Escape key.
pub open spec fn is_escape(key: PressedKey) -> bool {
    key matches PressedKey::Named(NamedKey::Escape)
}

/// Decides what a key press does while a shortcut is being captured.
pub fn capture_key(key: &PressedKey, mods: KeyModifiers) -> (r: CaptureAction)
    ensures
        is_modifier(*key) ==> r is Wait,
        !is_modifier(*key) && is_escape(*key) && mods.is_empty_spec() ==> r is Cancel,
        !is_modifier(*key) && !(is_escape(*key) && mods.is_empty_spec()) ==> match r {
            CaptureAction::Unsupported => combo_of(mods, *key).len() == 0,
            CaptureAction::Bind(c) => c@ == combo_of(mods, *key) && c@.len() > 0,
            _ => false,
        },
{
    if is_modifier_key(key) {
        return CaptureAction::Wait;
    }
    if let PressedKey::Named(NamedKey::Escape) = key {
        if mods.is_empty() {
            return CaptureAction::Cancel;
        }
    }
    let combo = format_combo(mods, key);
    if combo.as_str().is_empty() {
        CaptureAction::Unsupported
    } else {
        CaptureAction::Bind(combo)
    }
}

impl KeyModifiers {
    pub open spec fn is_empty_spec(&self) -> bool {
        !(self.logo || self.control || self.alt || self.shift)
    }
}

proof fn lemma_modifier_names_shape(m: KeyModifiers)
    ensures
        modifier_names(m).no_duplicates(),
        forall|i: int|
            0 <= i < modifier_names(m).len() ==> is_canonical_modifier(#[trigger] modifier_names(m)[i]),
{
    reveal_strlit("Super");
    reveal_strlit("Shift");
    reveal_strlit("Ctrl");
    reveal_strlit("Alt");
    assert("Super"@[1] != "Shift"@[1]);
    assert("Super"@ != "Ctrl"@ && "Super"@ != "Alt"@ && "Super"@ != "Shift"@);
    assert("Ctrl"@.len() == 4 && "Alt"@.len() == 3 && "Shift"@.len() == 5);
    assert("Ctrl"@ != "Alt"@ && "Ctrl"@ != "Shift"@ && "Alt"@ != "Shift"@);
}

/// A combo formatted from a key press reads back through `parse_combo` as
/// exactly the modifiers held (canonical, in the order they were written)
/// and the key in COSMIC's stored form, provided the key's text is a
/// trimmed word without a `+`.
pub proof fn law_captured_combo_parses(m: KeyModifiers, key: PressedKey)
    requires
        key_text(key) matches Some(t) && is_trimmed_word(t) && !t.contains('+'),
    ensures
        parsed_combo(combo_of(m, key)) == Ok::<(Seq<Seq<char>>, Seq<char>), Seq<char>>(
            (modifier_names(m), normalised_key(key_text(key)->0)),
        ),
{
    let t = key_text(key)->0;
    let ms = modifier_names(m);
    let ps = ms.push(t);
    lemma_modifier_names_shape(m);
    assert forall|i: int| 0 <= i < ps.len() implies is_trimmed_word(#[trigger] ps[i]) && !ps[i].contains(
        '+',
    ) by {
        if i < ms.len() {
            lemma_modifier_name_facts(ms[i]);
        }
    }
    reveal_strlit("+");
    assert("+"@ =~= seq!['+']);
    lemma_split_join(ps, '+');
    lemma_trimmed_words(ps);
    assert(combo_parts(combo_of(m, key)) == ps);
    assert(ps.drop_last() =~= ms);
    assert forall|i: int| 0 <= i < ms.len() implies canonical_modifier(lower(#[trigger] ms[i])) == Some(
        ms[i],
    ) by {
        lemma_modifier_name_facts(ms[i]);
    }
    lemma_canon_modifiers_fixed(ms);
}

/// COSMIC's names for keys are trimmed words of two or more characters
/// without a `+`.
proof fn lemma_key_name_facts(n: NamedKey)
    requires
        named_key_name(n) is Some,
    ensures
        is_trimmed_word(named_key_name(n)->0),
        !(named_key_name(n)->0).contains('+'),
        (named_key_name(n)->0).len() >= 2,
{
    match n {
        NamedKey::ArrowDown => {
            reveal_strlit("Down");
        },
        NamedKey::ArrowUp => {
            reveal_strlit("Up");
        },
        NamedKey::ArrowLeft => {
            reveal_strlit("Left");
        },
        NamedKey::ArrowRight => {
            reveal_strlit("Right");
        },
        NamedKey::Enter => {
            reveal_strlit("Return");
        },
        NamedKey::Escape => {
            reveal_strlit("Escape");
        },
        NamedKey::Tab => {
            reveal_strlit("Tab");
        },
        NamedKey::Backspace => {
            reveal_strlit("Backspace");
        },
        NamedKey::Delete => {
            reveal_strlit("Delete");
        },
        NamedKey::Insert => {
            reveal_strlit("Insert");
        },
        NamedKey::Home => {
            reveal_strlit("Home");
        },
        NamedKey::End => {
            reveal_strlit("End");
        },
        NamedKey::PageUp => {
            reveal_strlit("PageUp");
        },
        NamedKey::PageDown => {
            reveal_strlit("PageDown");
        },
        NamedKey::F1 => {
            reveal_strlit("F1");
        },
        NamedKey::F2 => {
            reveal_strlit("F2");
        },
        NamedKey::F3 => {
            reveal_strlit("F3");
        },
        NamedKey::F4 => {
            reveal_strlit("F4");
        },
        NamedKey::F5 => {
            reveal_strlit("F5");
        },
        NamedKey::F6 => {
            reveal_strlit("F6");
        },
        NamedKey::F7 => {
            reveal_strlit("F7");
        },
        NamedKey::F8 => {
            reveal_strlit("F8");
        },
        NamedKey::F9 => {
            reveal_strlit("F9");
        },
        NamedKey::F10 => {
            reveal_strlit("F10");
        },
        NamedKey::F11 => {
            reveal_strlit("F11");
        },
        NamedKey::F12 => {
            reveal_strlit("F12");
        },
        NamedKey::PrintScreen => {
            reveal_strlit("Print");
        },
        _ => {},
    }
}

/// Every key COSMIC has a name for formats to a combo that reads back
/// through `parse_combo` as the modifiers held and that name.
pub proof fn law_named_combo_parses(m: KeyModifiers, n: NamedKey)
    requires
        named_key_name(n) is Some,
    ensures
        parsed_combo(combo_of(m, PressedKey::Named(n))) == Ok::<(Seq<Seq<char>>, Seq<char>), Seq<char>>(
            (modifier_names(m), named_key_name(n)->0),
        ),
{
    let t = named_key_name(n)->0;
    lemma_key_name_facts(n);
    law_captured_combo_parses(m, PressedKey::Named(n));
    lemma_trim_word(t);
    lemma_byte_len_one(t);
}

/// COSMIC's key-name table: each named key it knows formats, after the
/// held modifiers, to its name (the arrows to `Up`, `Down`, `Left`,
/// `Right`, Enter to `Return`, Print Screen to `Print`, the others to
/// their own names); the modifier and lock keys and every other named key
/// cannot be bound and format to nothing.
pub proof fn law_named_key_table(m: KeyModifiers)
    ensures
        combo_of(m, PressedKey::Named(NamedKey::ArrowDown)) == join(modifier_names(m).push("Down"@), "+"@),
        combo_of(m, PressedKey::Named(NamedKey::ArrowUp)) == join(modifier_names(m).push("Up"@), "+"@),
        combo_of(m, PressedKey::Named(NamedKey::ArrowLeft)) == join(modifier_names(m).push("Left"@), "+"@),
        combo_of(m, PressedKey::Named(NamedKey::ArrowRight)) == join(modifier_names(m).push("Right"@), "+"@),
        combo_of(m, PressedKey::Named(NamedKey::Enter)) == join(modifier_names(m).push("Return"@), "+"@),
        combo_of(m, PressedKey::Named(NamedKey::Escape)) == join(modifier_names(m).push("Escape"@), "+"@),
        combo_of(m, PressedKey::Named(NamedKey::Tab)) == join(modifier_names(m).push("Tab"@), "+"@),
        combo_of(m, PressedKey::Named(NamedKey::Backspace)) == join(modifier_names(m).push("Backspace"@), "+"@),
        combo_of(m, PressedKey::Named(NamedKey::Delete)) == join(modifier_names(m).push("Delete"@), "+"@),
        combo_of(m, PressedKey::Named(NamedKey::Insert)) == join(modifier_names(m).push("Insert"@), "+"@),
        combo_of(m, PressedKey::Named(NamedKey::Home)) == join(modifier_names(m).push("Home"@), "+"@),
        combo_of(m, PressedKey::Named(NamedKey::End)) == join(modifier_names(m).push("End"@), "+"@),
        combo_of(m, PressedKey::Named(NamedKey::PageUp)) == join(modifier_names(m).push("PageUp"@), "+"@),
        combo_of(m, PressedKey::Named(NamedKey::PageDown)) == join(modifier_names(m).push("PageDown"@), "+"@),
        combo_of(m, PressedKey::Named(NamedKey::F1)) == join(modifier_names(m).push("F1"@), "+"@),
        combo_of(m, PressedKey::Named(NamedKey::F2)) == join(modifier_names(m).push("F2"@), "+"@),
        combo_of(m, PressedKey::Named(NamedKey::F3)) == join(modifier_names(m).push("F3"@), "+"@),
        combo_of(m, PressedKey::Named(NamedKey::F4)) == join(modifier_names(m).push("F4"@), "+"@),
        combo_of(m, PressedKey::Named(NamedKey::F5)) == join(modifier_names(m).push("F5"@), "+"@),
        combo_of(m, PressedKey::Named(NamedKey::F6)) == join(modifier_names(m).push("F6"@), "+"@),
        combo_of(m, PressedKey::Named(NamedKey::F7)) == join(modifier_names(m).push("F7"@), "+"@),
        combo_of(m, PressedKey::Named(NamedKey::F8)) == join(modifier_names(m).push("F8"@), "+"@),
        combo_of(m, PressedKey::Named(NamedKey::F9)) == join(modifier_names(m).push("F9"@), "+"@),
        combo_of(m, PressedKey::Named(NamedKey::F10)) == join(modifier_names(m).push("F10"@), "+"@),
        combo_of(m, PressedKey::Named(NamedKey::F11)) == join(modifier_names(m).push("F11"@), "+"@),
        combo_of(m, PressedKey::Named(NamedKey::F12)) == join(modifier_names(m).push("F12"@), "+"@),
        combo_of(m, PressedKey::Named(NamedKey::PrintScreen)) == join(modifier_names(m).push("Print"@), "+"@),
        combo_of(m, PressedKey::Named(NamedKey::Shift)) == Seq::<char>::empty(),
        combo_of(m, PressedKey::Named(NamedKey::Control)) == Seq::<char>::empty(),
        combo_of(m, PressedKey::Named(NamedKey::Alt)) == Seq::<char>::empty(),
        combo_of(m, PressedKey::Named(NamedKey::Super)) == Seq::<char>::empty(),
        combo_of(m, PressedKey::Named(NamedKey::Meta)) == Seq::<char>::empty(),
        combo_of(m, PressedKey::Named(NamedKey::AltGraph)) == Seq::<char>::empty(),
        combo_of(m, PressedKey::Named(NamedKey::CapsLock)) == Seq::<char>::empty(),
        combo_of(m, PressedKey::Named(NamedKey::NumLock)) == Seq::<char>::empty(),
        combo_of(m, PressedKey::Named(NamedKey::ScrollLock)) == Seq::<char>::empty(),
        combo_of(m, PressedKey::Named(NamedKey::Symbol)) == Seq::<char>::empty(),
        combo_of(m, PressedKey::Named(NamedKey::Other)) == Seq::<char>::empty(),
{
}

} // verus!
