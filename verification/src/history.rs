//! Persisted pick history: a RON list of double-quoted hex strings, newest
//! first, capped at [`LIMIT`] entries.
//!
//! The file itself is read and written by the caller; this module holds the
//! format: parsing, serialising and the update a new pick makes.

use vstd::prelude::*;
use crate::text::{chars_of, push_char, string_of};

verus! {

/// Most entries the history keeps.
pub const LIMIT: usize = 64;

/// The character sequences of a list of strings.
pub open spec fn string_views(v: Seq<String>) -> Seq<Seq<char>> {
    v.map_values(|s: String| s@)
}

/// Scanner state: the strings completed so far, and the characters of the
/// string being read when the scanner stands inside double quotes.
pub type ScanState = (Seq<Seq<char>>, Option<Seq<char>>);

pub open spec fn scan_step(st: ScanState, c: char) -> ScanState {
    match st.1 {
        None => if c == '"' {
            (st.0, Some(Seq::<char>::empty()))
        } else {
            st
        },
        Some(cur) => if c == '"' {
            (if cur.len() > 0 {
                st.0.push(cur)
            } else {
                st.0
            }, None)
        } else {
            (st.0, Some(cur.push(c)))
        },
    }
}

pub open spec fn scan_from(st: ScanState, s: Seq<char>) -> ScanState
    decreases s.len(),
{
    if s.len() == 0 {
        st
    } else {
        scan_step(scan_from(st, s.drop_last()), s.last())
    }
}

/// End of input: a string still open is kept when it is not empty.
pub open spec fn scan_finish(st: ScanState) -> Seq<Seq<char>> {
    match st.1 {
        Some(cur) => if cur.len() > 0 {
            st.0.push(cur)
        } else {
            st.0
        },
        None => st.0,
    }
}

/// The non-empty double-quoted substrings of `text`, in order. Anything
/// outside quotes is ignored; an unterminated string at the end counts.
pub open spec fn ron_strings(text: Seq<char>) -> Seq<Seq<char>> {
    scan_finish(scan_from((Seq::<Seq<char>>::empty(), None), text))
}

/// An entry that the file format can hold and give back unchanged.
pub open spec fn storable(e: Seq<char>) -> bool {
    e.len() > 0 && !e.contains('"')
}

pub open spec fn all_storable(list: Seq<Seq<char>>) -> bool {
    forall|i: int| 0 <= i < list.len() ==> #[trigger] storable(list[i])
}

/// One line of the file: four spaces, the quoted entry, a comma.
pub open spec fn entry_line(e: Seq<char>) -> Seq<char> {
    seq![' ', ' ', ' ', ' ', '"'] + e + seq!['"', ',', '\n']
}

pub open spec fn entry_lines(list: Seq<Seq<char>>) -> Seq<char>
    decreases list.len(),
{
    if list.len() == 0 {
        Seq::<char>::empty()
    } else {
        entry_lines(list.drop_last()) + entry_line(list.last())
    }
}

/// The file body written for `list`.
pub open spec fn ron_body(list: Seq<Seq<char>>) -> Seq<char> {
    seq!['[', '\n'] + entry_lines(list) + seq![']']
}

/// The list after a pick of `hex`: `hex` first, then the old entries, at
/// most [`LIMIT`] in all.
pub open spec fn pushed(list: Seq<Seq<char>>, hex: Seq<char>) -> Seq<Seq<char>> {
    let l = seq![hex] + list;
    if l.len() > LIMIT {
        l.take(LIMIT as int)
    } else {
        l
    }
}

/// Minimal parser: walks the text looking for double-quoted substrings.
/// Tolerates trailing commas, whitespace and the surrounding brackets.
/// Anything that isn't a literal string is silently ignored.
pub fn parse_ron_strings(text: &str) -> (out: Vec<String>)
    ensures
        string_views(out@) == ron_strings(text@),
{
    let chars = chars_of(text);
    let mut out: Vec<String> = Vec::new();
    let mut inside = false;
    let mut cur: Vec<char> = Vec::new();
    let mut i: usize = 0;
    assert(chars@.take(0) =~= Seq::<char>::empty());
    while i < chars.len()
        invariant
            i <= chars.len(),
            scan_from((Seq::<Seq<char>>::empty(), None), chars@.take(i as int)) == (
                string_views(out@),
                if inside {
                    Some(cur@)
                } else {
                    None::<Seq<char>>
                },
            ),
        decreases chars.len() - i,
    {
        let c = chars[i];
        assert(chars@.take(i + 1).drop_last() =~= chars@.take(i as int));
        let ghost ov = string_views(out@);
        if !inside {
            if c == '"' {
                inside = true;
                cur = Vec::new();
            }
        } else if c == '"' {
            if cur.len() > 0 {
                let s = string_of(&cur);
                out.push(s);
                assert(string_views(out@) =~= ov.push(cur@));
            }
            inside = false;
        } else {
            cur.push(c);
        }
        i += 1;
    }
    assert(chars@.take(chars@.len() as int) =~= chars@);
    if inside && cur.len() > 0 {
        let ghost ov = string_views(out@);
        let s = string_of(&cur);
        out.push(s);
        assert(string_views(out@) =~= ov.push(cur@));
    }
    out
}

fn push_str_chars(body: &mut String, s: &String)
    ensures
        final(body)@ == old(body)@ + s@,
{
    let chars = chars_of(s.as_str());
    let mut i: usize = 0;
    while i < chars.len()
        invariant
            i <= chars.len(),
            chars@ == s@,
            body@ =~= old(body)@ + chars@.take(i as int),
        decreases chars.len() - i,
    {
        push_char(body, chars[i]);
        i += 1;
    }
    assert(chars@.take(chars@.len() as int) =~= chars@);
}

/// The file body for `list`: `[`, one indented quoted line per entry, `]`.
pub fn serialize(list: &Vec<String>) -> (body: String)
    ensures
        body@ == ron_body(string_views(list@)),
{
    let mut body = String::new();
    push_char(&mut body, '[');
    push_char(&mut body, '\n');
    let mut i: usize = 0;
    while i < list.len()
        invariant
            i <= list.len(),
            body@ =~= seq!['[', '\n'] + entry_lines(string_views(list@).take(i as int)),
        decreases list.len() - i,
    {
        let ghost before = body@;
        push_char(&mut body, ' ');
        push_char(&mut body, ' ');
        push_char(&mut body, ' ');
        push_char(&mut body, ' ');
        push_char(&mut body, '"');
        push_str_chars(&mut body, &list[i]);
        push_char(&mut body, '"');
        push_char(&mut body, ',');
        push_char(&mut body, '\n');
        let ghost lv = string_views(list@);
        assert(lv.take(i + 1).drop_last() =~= lv.take(i as int));
        assert(body@ =~= before + entry_line(lv[i as int]));
        i += 1;
    }
    push_char(&mut body, ']');
    assert(string_views(list@).take(list@.len() as int) =~= string_views(list@));
    body
}

/// Records a pick: `hex` goes first, the old entries follow, and the list is
/// cut to [`LIMIT`] entries.
pub fn push(list: &mut Vec<String>, hex: &str)
    ensures
        string_views(final(list)@) == pushed(string_views(old(list)@), hex@),
{
    let s = hex.to_owned();
    list.insert(0, s);
    list.truncate(LIMIT);
    assert(string_views(list@) =~= pushed(string_views(old(list)@), hex@));
}


proof fn lemma_scan_concat(st: ScanState, a: Seq<char>, b: Seq<char>)
    ensures
        scan_from(st, a + b) == scan_from(scan_from(st, a), b),
    decreases b.len(),
{
    if b.len() == 0 {
        assert(a + b =~= a);
    } else {
        assert((a + b).drop_last() =~= a + b.drop_last());
        lemma_scan_concat(st, a, b.drop_last());
    }
}

proof fn lemma_no_quote_drop_last(s: Seq<char>)
    requires
        s.len() > 0,
        !s.contains('"'),
    ensures
        !s.drop_last().contains('"'),
        s.last() != '"',
{
    if s.drop_last().contains('"') {
        let k = choose|k: int| 0 <= k < s.drop_last().len() && s.drop_last()[k] == '"';
        assert(s[k] == '"');
    }
    assert(s[s.len() - 1] == s.last());
}

proof fn lemma_scan_outside(st: ScanState, s: Seq<char>)
    requires
        st.1 is None,
        !s.contains('"'),
    ensures
        scan_from(st, s) == st,
    decreases s.len(),
{
    if s.len() > 0 {
        lemma_no_quote_drop_last(s);
        lemma_scan_outside(st, s.drop_last());
    }
}

proof fn lemma_scan_inside(st: ScanState, cur: Seq<char>, s: Seq<char>)
    requires
        st.1 == Some(cur),
        !s.contains('"'),
    ensures
        scan_from(st, s) == (st.0, Some(cur + s)),
    decreases s.len(),
{
    if s.len() == 0 {
        assert(cur + s =~= cur);
    } else {
        lemma_no_quote_drop_last(s);
        lemma_scan_inside(st, cur, s.drop_last());
        assert((cur + s.drop_last()).push(s.last()) =~= cur + s);
    }
}

proof fn lemma_scan_entry_line(out: Seq<Seq<char>>, e: Seq<char>)
    requires
        storable(e),
    ensures
        scan_from((out, None), entry_line(e)) == (out.push(e), None::<Seq<char>>),
{
    let st: ScanState = (out, None);
    let p: Seq<char> = seq![' ', ' ', ' ', ' ', '"'];
    let q: Seq<char> = seq!['"', ',', '\n'];
    lemma_scan_concat(st, p + e, q);
    lemma_scan_concat(st, p, e);
    reveal_with_fuel(scan_from, 6);
    assert(p.drop_last() =~= seq![' ', ' ', ' ', ' ']);
    assert(p.drop_last().drop_last() =~= seq![' ', ' ', ' ']);
    assert(p.drop_last().drop_last().drop_last() =~= seq![' ', ' ']);
    assert(p.drop_last().drop_last().drop_last().drop_last() =~= seq![' ']);
    assert(seq![' '].drop_last() =~= Seq::<char>::empty());
    let after_p = scan_from(st, p);
    assert(after_p == (out, Some(Seq::<char>::empty())));
    lemma_scan_inside(after_p, Seq::<char>::empty(), e);
    assert(Seq::<char>::empty() + e =~= e);
    let after_e = scan_from(after_p, e);
    assert(q.drop_last() =~= seq!['"', ',']);
    assert(q.drop_last().drop_last() =~= seq!['"']);
    assert(seq!['"'].drop_last() =~= Seq::<char>::empty());
    assert(scan_from(after_e, q) == (out.push(e), None::<Seq<char>>));
}

proof fn lemma_scan_entry_lines(out: Seq<Seq<char>>, l: Seq<Seq<char>>)
    requires
        all_storable(l),
    ensures
        scan_from((out, None), entry_lines(l)) == (out + l, None::<Seq<char>>),
    decreases l.len(),
{
    if l.len() == 0 {
        assert(out + l =~= out);
    } else {
        let init = l.drop_last();
        assert(all_storable(init)) by {
            assert forall|i: int| 0 <= i < init.len() implies #[trigger] storable(init[i]) by {
                assert(storable(l[i]));
            }
        }
        lemma_scan_entry_lines(out, init);
        lemma_scan_concat((out, None), entry_lines(init), entry_line(l.last()));
        assert(storable(l[l.len() - 1]));
        lemma_scan_entry_line(out + init, l.last());
        assert((out + init).push(l.last()) =~= out + l);
    }
}

/// Serialising a list of storable entries and parsing the body back gives
/// the same list.
pub proof fn lemma_parse_serialize(l: Seq<Seq<char>>)
    requires
        all_storable(l),
    ensures
        ron_strings(ron_body(l)) == l,
{
    let st: ScanState = (Seq::<Seq<char>>::empty(), None);
    let open_: Seq<char> = seq!['[', '\n'];
    let close: Seq<char> = seq![']'];
    lemma_scan_concat(st, open_ + entry_lines(l), close);
    lemma_scan_concat(st, open_, entry_lines(l));
    assert(!open_.contains('"')) by {
        if open_.contains('"') {
            let k = choose|k: int| 0 <= k < open_.len() && open_[k] == '"';
        }
    }
    lemma_scan_outside(st, open_);
    lemma_scan_entry_lines(Seq::<Seq<char>>::empty(), l);
    assert(Seq::<Seq<char>>::empty() + l =~= l);
    assert(!close.contains('"')) by {
        if close.contains('"') {
            let k = choose|k: int| 0 <= k < close.len() && close[k] == '"';
        }
    }
    lemma_scan_outside((l, None), close);
}

proof fn lemma_scan_storable(s: Seq<char>)
    ensures
        all_storable(scan_from((Seq::<Seq<char>>::empty(), None), s).0),
        scan_from((Seq::<Seq<char>>::empty(), None), s).1 matches Some(cur) ==> !cur.contains('"'),
    decreases s.len(),
{
    if s.len() > 0 {
        lemma_scan_storable(s.drop_last());
        let st = scan_from((Seq::<Seq<char>>::empty(), None), s.drop_last());
        let c = s.last();
        match st.1 {
            None => {
                if c == '"' {
                    assert(!Seq::<char>::empty().contains('"'));
                }
            },
            Some(cur) => {
                if c == '"' {
                    if cur.len() > 0 {
                        let o = st.0.push(cur);
                        assert forall|i: int| 0 <= i < o.len() implies #[trigger] storable(o[i]) by {
                            if i < st.0.len() {
                                assert(storable(st.0[i]));
                            }
                        }
                    }
                } else {
                    let n = cur.push(c);
                    if n.contains('"') {
                        let k = choose|k: int| 0 <= k < n.len() && n[k] == '"';
                        if k < cur.len() {
                            assert(cur[k] == '"');
                        }
                    }
                }
            },
        }
    }
}

/// Whatever a history file holds, the entries parsed from it are storable:
/// non-empty and free of double quotes.
pub proof fn lemma_parsed_storable(text: Seq<char>)
    ensures
        all_storable(ron_strings(text)),
{
    lemma_scan_storable(text);
    let st = scan_from((Seq::<Seq<char>>::empty(), None), text);
    if let Some(cur) = st.1 {
        if cur.len() > 0 {
            let o = st.0.push(cur);
            assert forall|i: int| 0 <= i < o.len() implies #[trigger] storable(o[i]) by {
                if i < st.0.len() {
                    assert(storable(st.0[i]));
                }
            }
        }
    }
}

/// Recording a storable pick keeps every entry storable, puts the pick
/// first, keeps the older entries in order after it, and never holds more
/// than [`LIMIT`] entries.
pub proof fn lemma_pushed(l: Seq<Seq<char>>, hex: Seq<char>)
    requires
        all_storable(l),
        storable(hex),
    ensures
        all_storable(pushed(l, hex)),
        pushed(l, hex).len() <= LIMIT,
        pushed(l, hex)[0] == hex,
        forall|i: int| 0 <= i < l.len() && i + 1 < LIMIT ==> #[trigger] pushed(l, hex)[i + 1] == l[i],
{
    let p = pushed(l, hex);
    assert forall|i: int| 0 <= i < p.len() implies #[trigger] storable(p[i]) by {
        if i > 0 {
            assert(storable(l[i - 1]));
        }
    }
}

/// What the daemon writes after a pick is what the next load reads back:
/// loading any history file, recording a storable pick and saving gives a
/// file whose parse is exactly the updated list.
pub proof fn law_load_after_push(text: Seq<char>, hex: Seq<char>)
    requires
        storable(hex),
    ensures
        ron_strings(ron_body(pushed(ron_strings(text), hex))) == pushed(ron_strings(text), hex),
{
    lemma_parsed_storable(text);
    lemma_pushed(ron_strings(text), hex);
    lemma_parse_serialize(pushed(ron_strings(text), hex));
}

} // verus!
