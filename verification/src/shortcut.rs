//! The COSMIC keyboard-shortcut entry that fires the picker.
//!
//! The shortcuts file is a RON-ish map of `(modifiers: [...], key: "...") ->
//! Action`. Only the entry whose `Spawn(...)` argument names the
//! `cosmic-toysd` binary is ever touched; every other entry is left as it
//! stands. Reading and writing the file is the caller's part: the functions
//! here take the file's text and give back the new text.

use vstd::prelude::*;
use crate::text::{
    all_white, ascii_lower, byte_len, chars_of, extend_chars, is_one_byte, is_trimmed_word, is_white_space, join,
    join_chars, lemma_byte_len_one, lemma_split_append, lemma_split_extend, lemma_split_join,
    lemma_split_nonempty, lemma_white_then_word, lemma_white_trims_empty, lemma_split_pieces, lemma_trim_props,
    lemma_trim_word, lower, lower_chars, same_chars, split, split_chars, string_of, sub_chars, trim,
    trim_chars, trim_end, upper, upper_chars, views, white_space,
};

verus! {

broadcast use vstd::string::group_string_axioms;

/// The command our entry spawns.
pub const SPAWN_COMMAND: &'static str = "cosmic-toysd --pick";

/// Matches our entry in either the multi-line format we write or the
/// compact single-line shape COSMIC Settings tends to emit. Group 1 holds
/// the modifier list, group 2 the key, group 3 the spawned command.
pub const ENTRY_PATTERN: &'static str = "\\(\\s*modifiers:\\s*\\[([^\\]]*)\\]\\s*,\\s*key:\\s*\"([^\"]+)\"\\s*,?\\s*\\)\\s*:\\s*Spawn\\(\\s*\"([^\"]*cosmic-toysd[^\"]*)\"\\s*\\)\\s*,?";

/// The groups of the leftmost match of the regular expression `pattern` in
/// `haystack`, indexed by group number (`None` for a group that took no part
/// in the match); `None` when nothing matches or the pattern is not a valid
/// regular expression.
pub uninterp spec fn regex_captures(pattern: Seq<char>, haystack: Seq<char>) -> Option<
    Seq<Option<Seq<char>>>,
>;

/// `haystack` with every non-overlapping match of the regular expression
/// `pattern` replaced by the literal `replacement`; `haystack` itself when
/// the pattern is not a valid regular expression.
pub uninterp spec fn regex_replace_all(
    pattern: Seq<char>,
    haystack: Seq<char>,
    replacement: Seq<char>,
) -> Seq<char>;

pub open spec fn option_views(v: Seq<Option<String>>) -> Seq<Option<Seq<char>>> {
    v.map_values(
        |o: Option<String>|
            match o {
                Some(s) => Some(s@),
                None => None,
            },
    )
}

pub open spec fn captures_view(r: Option<Vec<Option<String>>>) -> Option<Seq<Option<Seq<char>>>> {
    match r {
        Some(v) => Some(option_views(v@)),
        None => None,
    }
}

/// `regex::Regex::captures`, on the regex compiled from `pattern` by
/// `regex::Regex::new`: the result is `regex_captures(pattern, haystack)`,
/// each group given by `regex::Captures::iter` as its matched text.
#[verifier::external_body]
fn regex_captures_of(pattern: &str, haystack: &str) -> (r: Option<Vec<Option<String>>>)
    ensures
        captures_view(r) == regex_captures(pattern@, haystack@),
{
    let re = match regex::Regex::new(pattern) {
        Ok(re) => re,
        Err(_) => return None,
    };
    re.captures(haystack).map(|c| c.iter().map(|m| m.map(|m| m.as_str().to_string())).collect())
}

/// `regex::Regex::replace_all` with a literal replacement (`NoExpand`), on
/// the regex compiled from `pattern` by `regex::Regex::new`: the result is
/// `regex_replace_all(pattern, haystack, replacement)`. Which text the
/// crate's matching replaces is only named, not stated.
#[verifier::external_body]
fn regex_replace_all_of(pattern: &str, haystack: &str, replacement: &str) -> (r: String)
    ensures
        r@ == regex_replace_all(pattern@, haystack@, replacement@),
{
    match regex::Regex::new(pattern) {
        Ok(re) => re.replace_all(haystack, regex::NoExpand(replacement)).into_owned(),
        Err(_) => haystack.to_string(),
    }
}

/// The groups of our entry's first match in `text`.
pub fn entry_captures(text: &str) -> (r: Option<Vec<Option<String>>>)
    ensures
        captures_view(r) == regex_captures(ENTRY_PATTERN@, text@),
{
    regex_captures_of(ENTRY_PATTERN, text)
}

/// `text` with every match of our entry removed.
pub fn strip_entries(text: &str) -> (r: String)
    ensures
        r@ == regex_replace_all(ENTRY_PATTERN@, text@, Seq::<char>::empty()),
{
    proof {
        reveal_strlit("");
        assert(""@ =~= Seq::<char>::empty());
    }
    regex_replace_all_of(ENTRY_PATTERN, text, "")
}

// ---------------------------------------------------------------------------
// Key names
// ---------------------------------------------------------------------------

/// How COSMIC stores a key typed by the user: trimmed, and a key of one
/// byte in ASCII lower case.
pub open spec fn normalised_key(input: Seq<char>) -> Seq<char> {
    let t = trim(input);
    if byte_len(t) == 1 {
        lower(t)
    } else {
        t
    }
}

/// How a stored key is shown: a key of one byte in ASCII upper case.
pub open spec fn human_key_of(key: Seq<char>) -> Seq<char> {
    if byte_len(key) == 1 {
        upper(key)
    } else {
        key
    }
}

fn normalise_key(input: &Vec<char>) -> (r: Vec<char>)
    ensures
        r@ == normalised_key(input@),
{
    let t = trim_chars(input);
    if is_one_byte(&t) {
        lower_chars(&t)
    } else {
        t
    }
}

fn human_key(key: &Vec<char>) -> (r: Vec<char>)
    ensures
        r@ == human_key_of(key@),
{
    if is_one_byte(key) {
        upper_chars(key)
    } else {
        key.clone()
    }
}

/// The pieces, each trimmed, the empty ones left out.
pub open spec fn trimmed_nonempty(ps: Seq<Seq<char>>) -> Seq<Seq<char>>
    decreases ps.len(),
{
    if ps.len() == 0 {
        Seq::<Seq<char>>::empty()
    } else {
        let r = trimmed_nonempty(ps.drop_last());
        let t = trim(ps.last());
        if t.len() > 0 {
            r.push(t)
        } else {
            r
        }
    }
}

fn trim_pieces(ps: &Vec<Vec<char>>) -> (r: Vec<Vec<char>>)
    ensures
        views(r@) == trimmed_nonempty(views(ps@)),
{
    let mut r: Vec<Vec<char>> = Vec::new();
    let mut i: usize = 0;
    while i < ps.len()
        invariant
            i <= ps.len(),
            views(r@) == trimmed_nonempty(views(ps@).take(i as int)),
        decreases ps.len() - i,
    {
        let ghost pv = views(ps@);
        assert(pv.take(i + 1).drop_last() =~= pv.take(i as int));
        let ghost rv = views(r@);
        let t = trim_chars(&ps[i]);
        if t.len() > 0 {
            r.push(t);
            assert(views(r@) =~= rv.push(trim(pv[i as int])));
        }
        i += 1;
    }
    assert(views(ps@).take(ps@.len() as int) =~= views(ps@));
    r
}

// ---------------------------------------------------------------------------
// Parsing a combo typed by the user
// ---------------------------------------------------------------------------

/// The canonical name of a modifier given in lower case.
pub open spec fn canonical_modifier(lowered: Seq<char>) -> Option<Seq<char>> {
    if lowered == "super"@ || lowered == "meta"@ || lowered == "win"@ || lowered == "logo"@ {
        Some("Super"@)
    } else if lowered == "shift"@ {
        Some("Shift"@)
    } else if lowered == "ctrl"@ || lowered == "control"@ {
        Some("Ctrl"@)
    } else if lowered == "alt"@ {
        Some("Alt"@)
    } else {
        None
    }
}

/// The modifiers of a combo, canonical and each named once in the order of
/// first mention; the first unknown one is an error naming it.
pub open spec fn canon_modifiers(ps: Seq<Seq<char>>) -> Result<Seq<Seq<char>>, Seq<char>>
    decreases ps.len(),
{
    if ps.len() == 0 {
        Ok(Seq::<Seq<char>>::empty())
    } else {
        match canon_modifiers(ps.drop_last()) {
            Err(e) => Err(e),
            Ok(ms) => match canonical_modifier(lower(ps.last())) {
                None => Err("Unknown modifier: "@ + lower(ps.last())),
                Some(m) => Ok(
                    if ms.contains(m) {
                        ms
                    } else {
                        ms.push(m)
                    },
                ),
            },
        }
    }
}

/// The `+`-separated, trimmed, non-empty pieces of a combo.
pub open spec fn combo_parts(input: Seq<char>) -> Seq<Seq<char>> {
    trimmed_nonempty(split(input, '+'))
}

/// A combo such as `Super+Shift+C`: the last piece is the key, the others
/// modifiers.
pub open spec fn parsed_combo(input: Seq<char>) -> Result<(Seq<Seq<char>>, Seq<char>), Seq<char>> {
    let parts = combo_parts(input);
    if parts.len() == 0 {
        Err("Empty shortcut"@)
    } else {
        match canon_modifiers(parts.drop_last()) {
            Err(e) => Err(e),
            Ok(ms) => Ok((ms, normalised_key(parts.last()))),
        }
    }
}

pub open spec fn combo_view(r: Result<(Vec<String>, String), String>) -> Result<
    (Seq<Seq<char>>, Seq<char>),
    Seq<char>,
> {
    match r {
        Ok((m, k)) => Ok((crate::history::string_views(m@), k@)),
        Err(e) => Err(e@),
    }
}

fn canonical_modifier_of(lowered: &Vec<char>) -> (r: Option<Vec<char>>)
    ensures
        match r {
            Some(v) => canonical_modifier(lowered@) == Some(v@),
            None => canonical_modifier(lowered@) is None,
        },
{
    if same_chars(lowered, &chars_of("super")) || same_chars(lowered, &chars_of("meta"))
        || same_chars(lowered, &chars_of("win")) || same_chars(lowered, &chars_of("logo")) {
        Some(chars_of("Super"))
    } else if same_chars(lowered, &chars_of("shift")) {
        Some(chars_of("Shift"))
    } else if same_chars(lowered, &chars_of("ctrl")) || same_chars(lowered, &chars_of("control")) {
        Some(chars_of("Ctrl"))
    } else if same_chars(lowered, &chars_of("alt")) {
        Some(chars_of("Alt"))
    } else {
        None
    }
}

fn contains_chars(list: &Vec<Vec<char>>, x: &Vec<char>) -> (r: bool)
    ensures
        r == views(list@).contains(x@),
{
    let mut i: usize = 0;
    while i < list.len()
        invariant
            i <= list.len(),
            forall|k: int| 0 <= k < i ==> list@[k]@ != x@,
        decreases list.len() - i,
    {
        if same_chars(&list[i], x) {
            assert(views(list@)[i as int] == x@);
            return true;
        }
        i += 1;
    }
    proof {
        if views(list@).contains(x@) {
            let k = choose|k: int| 0 <= k < views(list@).len() && views(list@)[k] == x@;
            assert(list@[k]@ == x@);
        }
    }
    false
}

fn strings_of(v: &Vec<Vec<char>>) -> (r: Vec<String>)
    ensures
        crate::history::string_views(r@) == views(v@),
{
    let mut r: Vec<String> = Vec::new();
    let mut i: usize = 0;
    while i < v.len()
        invariant
            i <= v.len(),
            crate::history::string_views(r@) =~= views(v@).take(i as int),
        decreases v.len() - i,
    {
        let s = string_of(&v[i]);
        let ghost rv = crate::history::string_views(r@);
        r.push(s);
        assert(crate::history::string_views(r@) =~= rv.push(v@[i as int]@));
        i += 1;
    }
    assert(views(v@).take(v@.len() as int) =~= views(v@));
    r
}

proof fn lemma_canon_err_sticks(ps: Seq<Seq<char>>, k: int)
    requires
        0 <= k <= ps.len(),
        canon_modifiers(ps.take(k)) is Err,
    ensures
        canon_modifiers(ps) == canon_modifiers(ps.take(k)),
    decreases ps.len() - k,
{
    if k < ps.len() {
        assert(ps.take(k + 1).drop_last() =~= ps.take(k));
        lemma_canon_err_sticks(ps, k + 1);
    } else {
        assert(ps.take(k) =~= ps);
    }
}

/// Validates user input such as `Super+Shift+C`. On success gives the list
/// of modifier names (canonical: `Super`, `Shift`, `Ctrl`, `Alt`; each at
/// most once, in order of first mention) and the key in the form COSMIC
/// expects (`c`, `F1`, `Down`, ...).
pub fn parse_combo(input: &str) -> (r: Result<(Vec<String>, String), String>)
    ensures
        combo_view(r) == parsed_combo(input@),
{
    let chars = chars_of(input);
    let pieces = split_chars(&chars, '+');
    let parts = trim_pieces(&pieces);
    if parts.len() == 0 {
        return Err("Empty shortcut".to_owned());
    }
    let n = parts.len() - 1;
    let ghost pv = views(parts@);
    let mut modifiers: Vec<Vec<char>> = Vec::new();
    let mut i: usize = 0;
    assert(pv.drop_last().take(0) =~= Seq::<Seq<char>>::empty());
    assert(views(modifiers@) =~= Seq::<Seq<char>>::empty());
    while i < n
        invariant
            n == parts.len() - 1,
            i <= n,
            pv == views(parts@),
            pv == combo_parts(input@),
            canon_modifiers(pv.drop_last().take(i as int)) == Ok::<Seq<Seq<char>>, Seq<char>>(
                views(modifiers@),
            ),
        decreases n - i,
    {
        assert(pv.drop_last().take(i + 1).drop_last() =~= pv.drop_last().take(i as int));
        assert(pv.drop_last().take(i + 1).last() == parts@[i as int]@);
        let lowered = lower_chars(&parts[i]);
        match canonical_modifier_of(&lowered) {
            None => {
                let mut msg = chars_of("Unknown modifier: ");
                extend_chars(&mut msg, &lowered);
                proof {
                    lemma_canon_err_sticks(pv.drop_last(), (i + 1) as int);
                }
                return Err(string_of(&msg));
            },
            Some(m) => {
                if !contains_chars(&modifiers, &m) {
                    let ghost mv = views(modifiers@);
                    modifiers.push(m);
                    assert(views(modifiers@) =~= mv.push(m@));
                }
            },
        }
        i += 1;
    }
    assert(pv.drop_last().take(n as int) =~= pv.drop_last());
    let key = normalise_key(&parts[n]);
    Ok((strings_of(&modifiers), string_of(&key)))
}

/// One of the four modifier names the shortcuts file uses.
pub open spec fn is_canonical_modifier(m: Seq<char>) -> bool {
    m == "Super"@ || m == "Shift"@ || m == "Ctrl"@ || m == "Alt"@
}

proof fn lemma_canon_modifiers_shape(ps: Seq<Seq<char>>)
    ensures
        canon_modifiers(ps) matches Ok(ms) ==> ms.no_duplicates() && forall|i: int|
            0 <= i < ms.len() ==> is_canonical_modifier(#[trigger] ms[i]),
    decreases ps.len(),
{
    if ps.len() > 0 {
        lemma_canon_modifiers_shape(ps.drop_last());
    }
}

/// Every modifier that `parse_combo` accepts comes back under one of the
/// four canonical names (`Super`, `Shift`, `Ctrl`, `Alt`), and none twice.
pub proof fn law_parsed_modifiers_canonical(input: Seq<char>)
    ensures
        parsed_combo(input) matches Ok((ms, key)) ==> ms.no_duplicates() && forall|i: int|
            0 <= i < ms.len() ==> is_canonical_modifier(#[trigger] ms[i]),
{
    let parts = combo_parts(input);
    if parts.len() > 0 {
        lemma_canon_modifiers_shape(parts.drop_last());
    }
}

/// Modifier names that are already canonical and distinct read back as
/// themselves.
pub proof fn lemma_canon_modifiers_fixed(ms: Seq<Seq<char>>)
    requires
        ms.no_duplicates(),
        forall|i: int| 0 <= i < ms.len() ==> canonical_modifier(lower(#[trigger] ms[i])) == Some(ms[i]),
    ensures
        canon_modifiers(ms) == Ok::<Seq<Seq<char>>, Seq<char>>(ms),
    decreases ms.len(),
{
    if ms.len() == 0 {
        assert(ms =~= Seq::<Seq<char>>::empty());
    } else {
        let d = ms.drop_last();
        assert forall|i: int| 0 <= i < d.len() implies canonical_modifier(lower(#[trigger] d[i])) == Some(
            d[i],
        ) by {
            assert(d[i] == ms[i]);
        }
        assert(d.no_duplicates()) by {
            assert forall|i: int, j: int| 0 <= i < d.len() && 0 <= j < d.len() && i != j implies d[i]
                != d[j] by {
                assert(d[i] == ms[i] && d[j] == ms[j]);
            }
        }
        lemma_canon_modifiers_fixed(d);
        assert(canonical_modifier(lower(ms[ms.len() - 1])) == Some(ms.last()));
        assert(!d.contains(ms.last())) by {
            if d.contains(ms.last()) {
                let k = choose|k: int| 0 <= k < d.len() && d[k] == ms.last();
                assert(ms[k] == ms[ms.len() - 1]);
            }
        }
        assert(d.push(ms.last()) =~= ms);
    }
}

/// Pieces that are already trimmed, non-empty words pass through
/// `trimmed_nonempty` unchanged.
pub proof fn lemma_trimmed_words(ps: Seq<Seq<char>>)
    requires
        forall|i: int| 0 <= i < ps.len() ==> is_trimmed_word(#[trigger] ps[i]),
    ensures
        trimmed_nonempty(ps) == ps,
    decreases ps.len(),
{
    if ps.len() == 0 {
        assert(ps =~= Seq::<Seq<char>>::empty());
    } else {
        let d = ps.drop_last();
        assert forall|i: int| 0 <= i < d.len() implies is_trimmed_word(#[trigger] d[i]) by {
            assert(d[i] == ps[i]);
        }
        lemma_trimmed_words(d);
        assert(is_trimmed_word(ps[ps.len() - 1]));
        lemma_trim_word(ps.last());
        assert(d.push(ps.last()) =~= ps);
    }
}

/// The four modifier names are trimmed words without a `+`, and each reads
/// back as itself.
pub proof fn lemma_modifier_name_facts(x: Seq<char>)
    requires
        is_canonical_modifier(x),
    ensures
        is_trimmed_word(x),
        !x.contains('+'),
        canonical_modifier(lower(x)) == Some(x),
{
    reveal_strlit("Super");
    reveal_strlit("Shift");
    reveal_strlit("Ctrl");
    reveal_strlit("Alt");
    reveal_strlit("super");
    reveal_strlit("shift");
    reveal_strlit("ctrl");
    reveal_strlit("alt");
    reveal_strlit("meta");
    reveal_strlit("win");
    reveal_strlit("logo");
    reveal_strlit("control");
    assert("super"@[1] != "shift"@[1]);
    assert("meta"@[0] != "ctrl"@[0] && "logo"@[0] != "ctrl"@[0]);
    assert("win"@[0] != "alt"@[0]);
    if x == "Super"@ {
        assert(lower(x) =~= "super"@);
    } else if x == "Shift"@ {
        assert(lower(x) =~= "shift"@);
    } else if x == "Ctrl"@ {
        assert(lower(x) =~= "ctrl"@);
    } else {
        assert(lower(x) =~= "alt"@);
    }
}

/// The stored key of a combo piece is a trimmed word without a `+` that
/// normalises to itself.
proof fn lemma_key_fixed(t: Seq<char>)
    requires
        is_trimmed_word(t),
        !t.contains('+'),
    ensures
        is_trimmed_word(normalised_key(t)),
        !normalised_key(t).contains('+'),
        normalised_key(normalised_key(t)) == normalised_key(t),
{
    lemma_trim_word(t);
    lemma_byte_len_one(t);
    if byte_len(t) == 1 {
        let c = t[0];
        let k = lower(t);
        assert(k.len() == 1 && k[0] == ascii_lower(c));
        assert(!is_white_space(ascii_lower(c)));
        assert(ascii_lower(c) != '+');
        assert(!k.contains('+'));
        lemma_trim_word(k);
        lemma_byte_len_one(k);
        assert(lower(k) =~= k);
    }
}

/// The canonical form of an accepted combo (its modifiers and key joined
/// with `+`) parses back to the same modifiers and key.
pub proof fn law_reparse_canonical(input: Seq<char>)
    ensures
        parsed_combo(input) matches Ok((ms, key)) ==> parsed_combo(join(ms.push(key), "+"@))
            == parsed_combo(input),
{
    let parts = combo_parts(input);
    if let Ok((ms, key)) = parsed_combo(input) {
        let pieces = split(input, '+');
        lemma_split_pieces(input, '+');
        lemma_trimmed_nonempty_words(pieces);
        lemma_canon_modifiers_shape(parts.drop_last());
        let t = parts.last();
        assert(is_trimmed_word(t) && !t.contains('+'));
        lemma_key_fixed(t);
        let ps = ms.push(key);
        assert forall|i: int| 0 <= i < ps.len() implies is_trimmed_word(#[trigger] ps[i]) && !ps[i].contains(
            '+',
        ) by {
            if i < ms.len() {
                lemma_modifier_name_facts(ms[i]);
            }
        }
        reveal_strlit("+");
        assert("+"@ =~= seq!['+']);
        lemma_split_join(ps, '+');
        lemma_trimmed_words(ps);
        assert(ps.drop_last() =~= ms);
        assert forall|i: int| 0 <= i < ms.len() implies canonical_modifier(lower(#[trigger] ms[i])) == Some(
            ms[i],
        ) by {
            lemma_modifier_name_facts(ms[i]);
        }
        lemma_canon_modifiers_fixed(ms);
    }
}

/// Every piece that `trimmed_nonempty` keeps is a trimmed word, and holds
/// no `+` when no input piece does.
proof fn lemma_trimmed_nonempty_words(ps: Seq<Seq<char>>)
    requires
        forall|i: int| 0 <= i < ps.len() ==> !(#[trigger] ps[i]).contains('+'),
    ensures
        forall|i: int|
            0 <= i < trimmed_nonempty(ps).len() ==> is_trimmed_word(#[trigger] trimmed_nonempty(ps)[i])
                && !trimmed_nonempty(ps)[i].contains('+'),
    decreases ps.len(),
{
    if ps.len() > 0 {
        let d = ps.drop_last();
        assert forall|i: int| 0 <= i < d.len() implies !(#[trigger] d[i]).contains('+') by {
            assert(d[i] == ps[i]);
        }
        lemma_trimmed_nonempty_words(d);
        lemma_trim_props(ps.last());
        assert(!ps[ps.len() - 1].contains('+'));
        let r = trimmed_nonempty(d);
        let t = trim(ps.last());
        if t.len() > 0 {
            assert(!t.contains('+'));
            assert forall|i: int| 0 <= i < r.push(t).len() implies is_trimmed_word(
                #[trigger] r.push(t)[i],
            ) && !r.push(t)[i].contains('+') by {
                if i < r.len() {
                    assert(r.push(t)[i] == r[i]);
                }
            }
        }
    }
}

// ---------------------------------------------------------------------------
// Reading the bound combo back
// ---------------------------------------------------------------------------

/// The combo shown for our entry's groups: the listed modifiers, then the
/// key in its shown form, joined with `+`.
pub open spec fn binding_of(caps: Option<Seq<Option<Seq<char>>>>) -> Option<Seq<char>> {
    match caps {
        None => None,
        Some(g) => if g.len() > 2 && g[1] is Some && g[2] is Some {
            Some(
                join(
                    trimmed_nonempty(split(g[1]->0, ',')).push(human_key_of(g[2]->0)),
                    "+"@,
                ),
            )
        } else {
            None
        },
    }
}

/// What the user sees for the entry bound in the shortcuts file `text`,
/// e.g. `Super+Shift+C`; `None` when our entry is not bound there.
pub fn current_binding(text: &str) -> (r: Option<String>)
    ensures
        match r {
            Some(s) => binding_of(regex_captures(ENTRY_PATTERN@, text@)) == Some(s@),
            None => binding_of(regex_captures(ENTRY_PATTERN@, text@)) is None,
        },
{
    let caps = entry_captures(text)?;
    if caps.len() <= 2 {
        return None;
    }
    let mods_raw = match &caps[1] {
        Some(m) => m,
        None => return None,
    };
    let key = match &caps[2] {
        Some(k) => k,
        None => return None,
    };
    let mods_chars = chars_of(mods_raw.as_str());
    let pieces = split_chars(&mods_chars, ',');
    let mut parts = trim_pieces(&pieces);
    let key_chars = chars_of(key.as_str());
    let shown = human_key(&key_chars);
    let ghost pv = views(parts@);
    parts.push(shown);
    assert(views(parts@) =~= pv.push(shown@));
    let plus = chars_of("+");
    let joined = join_chars(&parts, &plus);
    Some(string_of(&joined))
}

// ---------------------------------------------------------------------------
// Writing a new binding
// ---------------------------------------------------------------------------

/// Position of the last `c` in `s`.
pub open spec fn last_index_of(s: Seq<char>, c: char) -> Option<int>
    decreases s.len(),
{
    if s.len() == 0 {
        None
    } else if s.last() == c {
        Some(s.len() - 1)
    } else {
        last_index_of(s.drop_last(), c)
    }
}

/// `haystack` with `new_entry` inserted just before its last `}`: the text
/// before that brace loses its trailing white space and gains a comma
/// unless it already ends with `,` or `{`, then a newline and the entry
/// follow. `None` when there is no `}`.
pub open spec fn injected(haystack: Seq<char>, new_entry: Seq<char>) -> Option<Seq<char>> {
    match last_index_of(haystack, '}') {
        None => None,
        Some(p) => {
            let head = trim_end(haystack.take(p));
            let tail = haystack.skip(p);
            let comma = if head.len() > 0 && (head.last() == ',' || head.last() == '{') {
                Seq::<char>::empty()
            } else {
                seq![',']
            };
            Some(head + comma + seq!['\n'] + new_entry + tail)
        },
    }
}

proof fn lemma_last_index_bounds(s: Seq<char>, c: char)
    ensures
        last_index_of(s, c) matches Some(p) ==> 0 <= p < s.len() && s[p] == c,
    decreases s.len(),
{
    if s.len() > 0 && s.last() != c {
        lemma_last_index_bounds(s.drop_last(), c);
    }
}

proof fn lemma_trim_end_prefix(s: Seq<char>)
    ensures
        trim_end(s) == s.take(trim_end(s).len() as int),
        trim_end(s).len() <= s.len(),
        trim_end(s).len() > 0 ==> !is_white_space(trim_end(s).last()),
    decreases s.len(),
{
    if s.len() > 0 && is_white_space(s.last()) {
        lemma_trim_end_prefix(s.drop_last());
        assert(s.drop_last().take(trim_end(s).len() as int) =~= s.take(trim_end(s).len() as int));
    } else {
        assert(s.take(s.len() as int) =~= s);
    }
}

/// Inserts `new_entry` before the last `}` of `haystack`; see [`injected`].
pub fn inject_before_close(haystack: &str, new_entry: &str) -> (r: Option<String>)
    ensures
        match r {
            Some(s) => injected(haystack@, new_entry@) == Some(s@),
            None => injected(haystack@, new_entry@) is None,
        },
{
    let h = chars_of(haystack);
    let mut p = h.len();
    assert(h@.take(h@.len() as int) =~= h@);
    while p > 0 && h[p - 1] != '}'
        invariant
            p <= h.len(),
            last_index_of(h@, '}') == last_index_of(h@.take(p as int), '}'),
        decreases p,
    {
        assert(h@.take(p as int).drop_last() =~= h@.take(p - 1));
        p -= 1;
    }
    assert(h@.take(h@.len() as int) =~= h@);
    if p == 0 {
        return None;
    }
    let close = p - 1;
    assert(last_index_of(h@.take(p as int), '}') == Some(close as int));
    let head = sub_chars(&h, 0, close);
    let mut buf = trim_chars_end(&head);
    assert(h@.take(close as int) =~= head@);
    let tail = sub_chars(&h, close, h.len());
    assert(h@.skip(close as int) =~= tail@);
    let ends_ok = buf.len() > 0 && (buf[buf.len() - 1] == ',' || buf[buf.len() - 1] == '{');
    if !ends_ok {
        buf.push(',');
    }
    buf.push('\n');
    let e = chars_of(new_entry);
    extend_chars(&mut buf, &e);
    extend_chars(&mut buf, &tail);
    Some(string_of(&buf))
}

/// `str::trim_end` over a character vector.
fn trim_chars_end(v: &Vec<char>) -> (r: Vec<char>)
    ensures
        r@ == trim_end(v@),
{
    let mut j: usize = v.len();
    assert(v@.take(v@.len() as int) =~= v@);
    while j > 0 && white_space(v[j - 1])
        invariant
            j <= v.len(),
            trim_end(v@) == trim_end(v@.take(j as int)),
        decreases j,
    {
        assert(v@.take(j as int).drop_last() =~= v@.take(j - 1));
        j -= 1;
    }
    sub_chars(v, 0, j)
}

/// The lines of our entry for a parsed combo.
pub open spec fn modifier_lines(ms: Seq<Seq<char>>) -> Seq<char>
    decreases ms.len(),
{
    if ms.len() == 0 {
        Seq::<char>::empty()
    } else {
        modifier_lines(ms.drop_last()) + "            "@ + ms.last() + ",\n"@
    }
}

/// Our entry, as written to the shortcuts file.
pub open spec fn entry_text(ms: Seq<Seq<char>>, key: Seq<char>) -> Seq<char> {
    "    (\n        modifiers: [\n"@ + modifier_lines(ms) + "        ],\n"@ + "        key: \""@ + key
        + "\",\n"@ + "    ): Spawn(\""@ + SPAWN_COMMAND@ + "\"),\n"@
}

/// The modifier block of an entry splits at its commas into exactly the
/// modifiers (trimmed, empty pieces left out), the last piece being white
/// space only.
proof fn lemma_modifier_block_pieces(ms: Seq<Seq<char>>)
    requires
        forall|i: int| 0 <= i < ms.len() ==> is_trimmed_word(#[trigger] ms[i]) && !ms[i].contains(','),
    ensures
        trimmed_nonempty(split(modifier_lines(ms), ',')) == ms,
        all_white(split(modifier_lines(ms), ',').last()),
    decreases ms.len(),
{
    reveal_strlit("            ");
    reveal_strlit(",\n");
    let pad = "            "@;
    if ms.len() == 0 {
        assert(modifier_lines(ms) =~= Seq::<char>::empty());
        let e = Seq::<char>::empty();
        assert(split(e, ',') == seq![e]);
        assert(seq![e].drop_last() =~= Seq::<Seq<char>>::empty());
        assert(trim(e) =~= e);
        assert(trimmed_nonempty(seq![e]) == trimmed_nonempty(Seq::<Seq<char>>::empty()));
        assert(ms =~= Seq::<Seq<char>>::empty());
        assert(all_white(e));
    } else {
        let d = ms.drop_last();
        let m = ms.last();
        assert forall|i: int| 0 <= i < d.len() implies is_trimmed_word(#[trigger] d[i]) && !d[i].contains(
            ',',
        ) by {
            assert(d[i] == ms[i]);
        }
        lemma_modifier_block_pieces(d);
        let l = modifier_lines(d);
        assert(is_trimmed_word(ms[ms.len() - 1]) && !ms[ms.len() - 1].contains(','));
        let c = pad + m;
        assert(!pad.contains(','));
        assert(!c.contains(',')) by {
            if c.contains(',') {
                let k = choose|k: int| 0 <= k < c.len() && c[k] == ',';
                if k < pad.len() {
                    assert(pad[k] == ',');
                } else {
                    assert(m[k - pad.len()] == ',');
                }
            }
        }
        lemma_split_nonempty(l, ',');
        lemma_split_extend(l, c, ',');
        let a = l + c;
        assert(modifier_lines(ms) =~= a + seq![','] + seq!['\n']);
        assert(!seq!['\n'].contains(',')) by {
            if seq!['\n'].contains(',') {
                let k = choose|k: int| 0 <= k < 1 && seq!['\n'][k] == ',';
            }
        }
        lemma_split_append(a, seq!['\n'], ',');
        let pl = split(l, ',');
        let pa = split(a, ',');
        assert(pa == pl.update(pl.len() - 1, pl.last() + c));
        assert(is_white_space('\n'));
        assert(all_white(seq!['\n']));
        lemma_white_trims_empty(seq!['\n']);
        // The pieces of the block: those of `a`, then a line break.
        assert(pa.push(seq!['\n']).drop_last() =~= pa);
        assert(trimmed_nonempty(pa.push(seq!['\n'])) == trimmed_nonempty(pa));
        assert(pa.drop_last() =~= pl.drop_last());
        lemma_white_trims_empty(pl.last());
        assert(trimmed_nonempty(pl) == trimmed_nonempty(pl.drop_last()));
        let w = pl.last() + pad;
        assert(all_white(pad));
        assert(all_white(w)) by {
            assert forall|i: int| 0 <= i < w.len() implies is_white_space(#[trigger] w[i]) by {
                if i < pl.last().len() {
                    assert(w[i] == pl.last()[i]);
                } else {
                    assert(w[i] == pad[i - pl.last().len()]);
                }
            }
        }
        assert(pl.last() + c =~= w + m);
        lemma_white_then_word(w, m);
        assert(pa.last() == w + m);
        assert(trimmed_nonempty(pa) == trimmed_nonempty(pa.drop_last()).push(m));
        assert(d.push(m) =~= ms);
    }
}

/// The entry written for a combo lists its modifiers: between the line
/// that opens the modifier list and the line that closes it stands a block
/// whose comma-separated, trimmed, non-empty pieces are exactly the
/// modifiers, each once and in order, which is how the bound combo is
/// read back.
pub proof fn law_entry_lists_modifiers(ms: Seq<Seq<char>>, key: Seq<char>)
    requires
        forall|i: int| 0 <= i < ms.len() ==> is_trimmed_word(#[trigger] ms[i]) && !ms[i].contains(','),
    ensures
        exists|block: Seq<char>|
            entry_text(ms, key) == "    (\n        modifiers: [\n"@ + block + "        ],\n"@
                + "        key: \""@ + key + "\",\n"@ + "    ): Spawn(\""@ + SPAWN_COMMAND@ + "\"),\n"@
                && trimmed_nonempty(split(block, ',')) == ms,
{
    lemma_modifier_block_pieces(ms);
    let block = modifier_lines(ms);
    assert(trimmed_nonempty(split(block, ',')) == ms);
}

/// Binding a typed combo writes an entry that lists exactly the modifiers
/// `parse_combo` gave for it, in order.
pub proof fn law_bound_entry_lists_parsed_modifiers(input: Seq<char>, key: Seq<char>)
    ensures
        parsed_combo(input) matches Ok((ms, k)) ==> exists|block: Seq<char>|
            entry_text(ms, k) == "    (\n        modifiers: [\n"@ + block + "        ],\n"@
                + "        key: \""@ + k + "\",\n"@ + "    ): Spawn(\""@ + SPAWN_COMMAND@ + "\"),\n"@
                && trimmed_nonempty(split(block, ',')) == ms,
{
    if let Ok((ms, k)) = parsed_combo(input) {
        law_parsed_modifiers_canonical(input);
        assert forall|i: int| 0 <= i < ms.len() implies is_trimmed_word(#[trigger] ms[i]) && !ms[i].contains(
            ',',
        ) by {
            lemma_modifier_name_facts(ms[i]);
            reveal_strlit("Super");
            reveal_strlit("Shift");
            reveal_strlit("Ctrl");
            reveal_strlit("Alt");
        }
        law_entry_lists_modifiers(ms, k);
    }
}

/// The text of our entry binding `key` with `modifiers`.
pub fn shortcut_entry(modifiers: &Vec<String>, key: &String) -> (r: String)
    ensures
        r@ == entry_text(crate::history::string_views(modifiers@), key@),
{
    let mut buf = chars_of("    (\n        modifiers: [\n");
    let ghost start = buf@;
    let ghost mv = crate::history::string_views(modifiers@);
    let mut i: usize = 0;
    while i < modifiers.len()
        invariant
            i <= modifiers.len(),
            mv == crate::history::string_views(modifiers@),
            buf@ == start + modifier_lines(mv.take(i as int)),
        decreases modifiers.len() - i,
    {
        assert(mv.take(i + 1).drop_last() =~= mv.take(i as int));
        let ghost b0 = buf@;
        extend_chars(&mut buf, &chars_of("            "));
        extend_chars(&mut buf, &chars_of(modifiers[i].as_str()));
        extend_chars(&mut buf, &chars_of(",\n"));
        i += 1;
        assert(buf@ =~= start + modifier_lines(mv.take(i as int)));
    }
    assert(mv.take(modifiers.len() as int) =~= mv);
    extend_chars(&mut buf, &chars_of("        ],\n"));
    extend_chars(&mut buf, &chars_of("        key: \""));
    extend_chars(&mut buf, &chars_of(key.as_str()));
    extend_chars(&mut buf, &chars_of("\",\n"));
    extend_chars(&mut buf, &chars_of("    ): Spawn(\""));
    extend_chars(&mut buf, &chars_of(SPAWN_COMMAND));
    extend_chars(&mut buf, &chars_of("\"),\n"));
    let r = string_of(&buf);
    assert(r@ =~= entry_text(mv, key@));
    r
}

/// The shortcuts file `original` rebound to the combo typed as `input`:
/// any previous entry of ours removed, the new one inserted before the
/// closing brace.
pub open spec fn rebound(original: Seq<char>, input: Seq<char>) -> Result<Seq<char>, Seq<char>> {
    match parsed_combo(input) {
        Err(e) => Err(e),
        Ok((ms, key)) => match injected(
            regex_replace_all(ENTRY_PATTERN@, original, Seq::<char>::empty()),
            entry_text(ms, key),
        ) {
            Some(t) => Ok(t),
            None => Err("Shortcuts file is malformed: no closing `}` found"@),
        },
    }
}

/// The new text of the shortcuts file after binding the combo typed as
/// `input`, or the reason it cannot be bound.
pub fn set_binding(original: &str, input: &str) -> (r: Result<String, String>)
    ensures
        match r {
            Ok(s) => rebound(original@, input@) == Ok::<Seq<char>, Seq<char>>(s@),
            Err(e) => rebound(original@, input@) == Err::<Seq<char>, Seq<char>>(e@),
        },
{
    let (modifiers, key) = match parse_combo(input) {
        Ok(p) => p,
        Err(e) => return Err(e),
    };
    let stripped = strip_entries(original);
    let entry = shortcut_entry(&modifiers, &key);
    match inject_before_close(stripped.as_str(), entry.as_str()) {
        Some(s) => Ok(s),
        None => Err("Shortcuts file is malformed: no closing `}` found".to_owned()),
    }
}

/// The new text of the shortcuts file after removing our entry; `None`
/// when there is nothing to remove and the file can stay as it is.
pub fn clear(original: &str) -> (r: Option<String>)
    ensures
        ({
            let stripped = regex_replace_all(ENTRY_PATTERN@, original@, Seq::<char>::empty());
            match r {
                Some(s) => s@ == stripped && stripped != original@,
                None => stripped == original@,
            }
        }),
{
    let stripped = strip_entries(original);
    let o = original.to_owned();
    if stripped == o {
        None
    } else {
        Some(stripped)
    }
}

} // verus!
