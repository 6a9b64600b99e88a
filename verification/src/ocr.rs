//! OCR ("Live Text") logic: reading tesseract's TSV output into words,
//! hit-testing, the click-drag selection, and the text a selection copies.
//!
//! Capturing the screen, running tesseract and the overlay surfaces are the
//! caller's part.

use vstd::prelude::*;
use crate::history::string_views;
use crate::text::{
    chars_of, i32_or_zero, lines, lines_of, parse_i32, parse_u32, push_char, split, split_chars,
    string_of, trim, trim_chars, u32_or_zero, views,
};

verus! {

broadcast use vstd::string::group_string_axioms;

/// A recognised word. The bounding box is in compositor space; the
/// grouping keys (block, paragraph, line, word) come from tesseract and
/// give the reading order and the separators of a copied selection.
#[derive(Debug)]
pub struct Word {
    pub x: i32,
    pub y: i32,
    pub w: i32,
    pub h: i32,
    pub text: String,
    pub block: u32,
    pub par: u32,
    pub line: u32,
    pub word_num: u32,
}

// ---------------------------------------------------------------------------
// TSV
// ---------------------------------------------------------------------------

/// The rows of tesseract's TSV output below the header, each split at tabs.
pub open spec fn tsv_rows(stdout: Seq<char>) -> Seq<Seq<Seq<char>>> {
    let ls = lines(stdout);
    if ls.len() == 0 {
        Seq::<Seq<Seq<char>>>::empty()
    } else {
        ls.skip(1).map_values(|l: Seq<char>| split(l, '\t'))
    }
}

pub open spec fn or_zero_u32(s: Seq<char>) -> u32 {
    match parse_u32(s) {
        Some(v) => v,
        None => 0,
    }
}

pub open spec fn or_zero_i32(s: Seq<char>) -> i32 {
    match parse_i32(s) {
        Some(v) => v,
        None => 0,
    }
}

/// The verdict on the confidence column of row `i`; a row without one is
/// not confident.
pub open spec fn confident_at(confident: Seq<bool>, i: int) -> bool {
    0 <= i < confident.len() && confident[i]
}

/// A row is a word: twelve or more columns, level 5, confident enough, and
/// some text once trimmed.
pub open spec fn accepts(f: Seq<Seq<char>>, confident: bool) -> bool {
    &&& f.len() >= 12
    &&& or_zero_u32(f[0]) == 5
    &&& confident
    &&& trim(f[11]).len() > 0
}

/// The word that row `f` describes; a column that does not parse reads
/// as 0.
pub open spec fn word_from_row(w: Word, f: Seq<Seq<char>>) -> bool {
    &&& w.block == or_zero_u32(f[2])
    &&& w.par == or_zero_u32(f[3])
    &&& w.line == or_zero_u32(f[4])
    &&& w.word_num == or_zero_u32(f[5])
    &&& w.x == or_zero_i32(f[6])
    &&& w.y == or_zero_i32(f[7])
    &&& w.w == or_zero_i32(f[8])
    &&& w.h == or_zero_i32(f[9])
    &&& w.text@ == trim(f[11])
}

/// The rows among the first `n` that are words, in order.
pub open spec fn accepted_rows(rows: Seq<Seq<Seq<char>>>, confident: Seq<bool>, n: int) -> Seq<
    Seq<Seq<char>>,
>
    decreases n,
{
    if n <= 0 {
        Seq::<Seq<Seq<char>>>::empty()
    } else {
        let prev = accepted_rows(rows, confident, n - 1);
        if accepts(rows[n - 1], confident_at(confident, n - 1)) {
            prev.push(rows[n - 1])
        } else {
            prev
        }
    }
}

pub open spec fn row_views(r: Seq<Vec<String>>) -> Seq<Seq<Seq<char>>> {
    r.map_values(|row: Vec<String>| string_views(row@))
}

fn tsv_row_chars(stdout: &str) -> (r: Vec<Vec<Vec<char>>>)
    ensures
        r@.map_values(|row: Vec<Vec<char>>| views(row@)) == tsv_rows(stdout@),
{
    let chars = chars_of(stdout);
    let ls = lines_of(&chars);
    let ghost lv = views(ls@);
    let mut r: Vec<Vec<Vec<char>>> = Vec::new();
    if ls.len() == 0 {
        assert(r@.map_values(|row: Vec<Vec<char>>| views(row@)) =~= tsv_rows(stdout@));
        return r;
    }
    let mut i: usize = 1;
    while i < ls.len()
        invariant
            1 <= i <= ls.len(),
            lv == views(ls@),
            lv == lines(stdout@),
            r@.map_values(|row: Vec<Vec<char>>| views(row@)) =~= lv.skip(1).take(i - 1).map_values(
                |l: Seq<char>| split(l, '\t'),
            ),
        decreases ls.len() - i,
    {
        let fields = split_chars(&ls[i], '\t');
        let ghost rv = r@.map_values(|row: Vec<Vec<char>>| views(row@));
        r.push(fields);
        assert(r@.map_values(|row: Vec<Vec<char>>| views(row@)) =~= rv.push(split(lv[i as int], '\t')));
        assert(lv.skip(1).take(i as int).map_values(|l: Seq<char>| split(l, '\t')) =~= lv.skip(1).take(
            i - 1,
        ).map_values(|l: Seq<char>| split(l, '\t')).push(split(lv[i as int], '\t')));
        i += 1;
    }
    assert(lv.skip(1).take(ls.len() - 1) =~= lv.skip(1));
    r
}

/// The rows of tesseract's TSV output below the header, each split into
/// its tab-separated columns.
pub fn tsv_rows_of(stdout: &str) -> (r: Vec<Vec<String>>)
    ensures
        row_views(r@) == tsv_rows(stdout@),
{
    let rows = tsv_row_chars(stdout);
    let ghost rv = rows@.map_values(|row: Vec<Vec<char>>| views(row@));
    let mut r: Vec<Vec<String>> = Vec::new();
    let mut i: usize = 0;
    while i < rows.len()
        invariant
            i <= rows.len(),
            rv == rows@.map_values(|row: Vec<Vec<char>>| views(row@)),
            row_views(r@) =~= rv.take(i as int),
        decreases rows.len() - i,
    {
        let row = &rows[i];
        let mut out: Vec<String> = Vec::new();
        let mut k: usize = 0;
        while k < row.len()
            invariant
                k <= row.len(),
                string_views(out@) =~= views(row@).take(k as int),
            decreases row.len() - k,
        {
            let s = string_of(&row[k]);
            let ghost ov = string_views(out@);
            out.push(s);
            assert(string_views(out@) =~= ov.push(row@[k as int]@));
            k += 1;
        }
        assert(views(row@).take(row.len() as int) =~= views(row@));
        let ghost before = row_views(r@);
        r.push(out);
        assert(row_views(r@) =~= before.push(rv[i as int]));
        i += 1;
    }
    assert(rv.take(rows.len() as int) =~= rv);
    r
}

/// The words of tesseract's TSV output, in the order of its rows. Row `i`
/// is a word when it has twelve or more columns, its level column parses
/// as 5, `confident[i]` holds (the caller's verdict on its confidence
/// column; a missing verdict counts as not confident) and its text column
/// is not blank once trimmed.
pub fn parse_tsv(stdout: &str, confident: &Vec<bool>) -> (out: Vec<Word>)
    ensures
        ({
            let acc = accepted_rows(tsv_rows(stdout@), confident@, tsv_rows(stdout@).len() as int);
            &&& out@.len() == acc.len()
            &&& forall|i: int| 0 <= i < out@.len() ==> #[trigger] word_from_row(out@[i], acc[i])
        }),
{
    let rows = tsv_row_chars(stdout);
    let ghost rv = rows@.map_values(|row: Vec<Vec<char>>| views(row@));
    let mut out: Vec<Word> = Vec::new();
    let mut i: usize = 0;
    while i < rows.len()
        invariant
            i <= rows.len(),
            rv == rows@.map_values(|row: Vec<Vec<char>>| views(row@)),
            rv == tsv_rows(stdout@),
            out@.len() == accepted_rows(rv, confident@, i as int).len(),
            forall|k: int|
                0 <= k < out@.len() ==> #[trigger] word_from_row(
                    out@[k],
                    accepted_rows(rv, confident@, i as int)[k],
                ),
        decreases rows.len() - i,
    {
        let f = &rows[i];
        let ghost fv = views(f@);
        assert(fv == rv[i as int]);
        let conf = i < confident.len() && confident[i];
        if f.len() >= 12 && u32_or_zero(&f[0]) == 5 && conf {
            let text = trim_chars(&f[11]);
            if text.len() > 0 {
                let word = Word {
                    x: i32_or_zero(&f[6]),
                    y: i32_or_zero(&f[7]),
                    w: i32_or_zero(&f[8]),
                    h: i32_or_zero(&f[9]),
                    text: string_of(&text),
                    block: u32_or_zero(&f[2]),
                    par: u32_or_zero(&f[3]),
                    line: u32_or_zero(&f[4]),
                    word_num: u32_or_zero(&f[5]),
                };
                assert(word_from_row(word, fv));
                out.push(word);
            }
        }
        i += 1;
        assert(accepted_rows(rv, confident@, i as int) == if accepts(
            rv[i - 1],
            confident_at(confident@, i - 1),
        ) {
            accepted_rows(rv, confident@, i - 1).push(rv[i - 1])
        } else {
            accepted_rows(rv, confident@, i - 1)
        });
    }
    out
}

// ---------------------------------------------------------------------------
// Reading order
// ---------------------------------------------------------------------------

/// `a` comes no later than `b` in reading order: by block, paragraph,
/// line, word number, then left edge.
pub open spec fn reads_before(a: Word, b: Word) -> bool {
    if a.block != b.block {
        a.block < b.block
    } else if a.par != b.par {
        a.par < b.par
    } else if a.line != b.line {
        a.line < b.line
    } else if a.word_num != b.word_num {
        a.word_num < b.word_num
    } else {
        a.x <= b.x
    }
}

/// Every word reads no later than each word after it.
pub open spec fn in_reading_order(ws: Seq<Word>) -> bool {
    forall|i: int, j: int| 0 <= i < j < ws.len() ==> reads_before(#[trigger] ws[i], #[trigger] ws[j])
}

/// `w` placed in `ws` after every word that reads no later than it.
pub open spec fn insert_in_order(ws: Seq<Word>, w: Word) -> Seq<Word>
    decreases ws.len(),
{
    if ws.len() == 0 {
        seq![w]
    } else if reads_before(ws.last(), w) {
        ws.push(w)
    } else {
        insert_in_order(ws.drop_last(), w).push(ws.last())
    }
}

/// The words in reading order, words with equal keys keeping their
/// relative order: each word in turn placed after every earlier word that
/// reads no later than it.
pub open spec fn reading_order(ws: Seq<Word>) -> Seq<Word>
    decreases ws.len(),
{
    if ws.len() == 0 {
        Seq::<Word>::empty()
    } else {
        insert_in_order(reading_order(ws.drop_last()), ws.last())
    }
}

fn reads_before_exec(a: &Word, b: &Word) -> (r: bool)
    ensures
        r == reads_before(*a, *b),
{
    if a.block != b.block {
        a.block < b.block
    } else if a.par != b.par {
        a.par < b.par
    } else if a.line != b.line {
        a.line < b.line
    } else if a.word_num != b.word_num {
        a.word_num < b.word_num
    } else {
        a.x <= b.x
    }
}

proof fn lemma_insert_split(ws: Seq<Word>, w: Word, p: int)
    requires
        0 <= p <= ws.len(),
        forall|j: int| p <= j < ws.len() ==> !reads_before(#[trigger] ws[j], w),
    ensures
        insert_in_order(ws, w) == insert_in_order(ws.take(p), w) + ws.skip(p),
    decreases ws.len() - p,
{
    if p < ws.len() {
        lemma_insert_split(ws.drop_last(), w, p);
        assert(ws.drop_last().take(p) =~= ws.take(p));
        assert(!reads_before(ws[ws.len() - 1], w));
        assert(ws.drop_last().skip(p).push(ws.last()) =~= ws.skip(p));
    } else {
        assert(ws.take(p) =~= ws);
        assert(ws.skip(p) =~= Seq::<Word>::empty());
    }
}

/// Places `w` into `ws` after every word that reads no later than it.
fn insert_word(ws: &mut Vec<Word>, w: Word)
    ensures
        final(ws)@ == insert_in_order(old(ws)@, w),
{
    let mut p = ws.len();
    while p > 0 && !reads_before_exec(&ws[p - 1], &w)
        invariant
            p <= ws.len(),
            forall|j: int| p <= j < ws.len() ==> !reads_before(#[trigger] ws@[j], w),
        decreases p,
    {
        p -= 1;
    }
    proof {
        lemma_insert_split(ws@, w, p as int);
        let t = ws@.take(p as int);
        if p > 0 {
            assert(t.last() == ws@[p - 1]);
        }
        assert(insert_in_order(t, w) == t.push(w));
        assert(t.push(w) + ws@.skip(p as int) =~= ws@.insert(p as int, w));
    }
    ws.insert(p, w);
}

/// The words sorted into reading order (block, paragraph, line, word
/// number, left edge); words with equal keys keep their order.
pub fn sort_reading_order(words: Vec<Word>) -> (r: Vec<Word>)
    ensures
        r@ == reading_order(words@),
{
    let ghost all = words@;
    let n = words.len();
    assert(all.len() == n);
    let mut rest = words;
    let mut out: Vec<Word> = Vec::new();
    let mut i: usize = 0;
    while rest.len() > 0
        invariant
            i + rest@.len() == all.len(),
            all.len() <= usize::MAX,
            rest@ == all.skip(i as int),
            out@ == reading_order(all.take(i as int)),
        decreases rest@.len(),
    {
        let w = rest.remove(0);
        assert(all.take(i + 1).drop_last() =~= all.take(i as int));
        assert(all.take(i + 1).last() == w);
        insert_word(&mut out, w);
        assert(rest@ =~= all.skip(i + 1));
        i += 1;
    }
    assert(all.take(i as int) =~= all);
    out
}

proof fn lemma_insert_keeps_order(ws: Seq<Word>, w: Word)
    requires
        in_reading_order(ws),
    ensures
        in_reading_order(insert_in_order(ws, w)),
        insert_in_order(ws, w).to_multiset() == ws.to_multiset().insert(w),
    decreases ws.len(),
{
    broadcast use vstd::seq_lib::group_to_multiset_ensures;

    if ws.len() == 0 {
        assert(seq![w] =~= Seq::<Word>::empty().push(w));
    } else if reads_before(ws.last(), w) {
        let r = ws.push(w);
        assert forall|i: int, j: int| 0 <= i < j < r.len() implies reads_before(
            #[trigger] r[i],
            #[trigger] r[j],
        ) by {
            if j == ws.len() && i < ws.len() - 1 {
                assert(reads_before(ws[i], ws[ws.len() - 1]));
            }
        }
    } else {
        let d = ws.drop_last();
        let l = ws.last();
        assert(in_reading_order(d)) by {
            assert forall|i: int, j: int| 0 <= i < j < d.len() implies reads_before(
                #[trigger] d[i],
                #[trigger] d[j],
            ) by {
                assert(reads_before(ws[i], ws[j]));
            }
        }
        lemma_insert_keeps_order(d, w);
        let inner = insert_in_order(d, w);
        let r = inner.push(l);
        assert(ws =~= d.push(l));
        assert(reads_before(w, l));
        assert forall|k: int| 0 <= k < inner.len() implies reads_before(#[trigger] inner[k], l) by {
            let x = inner[k];
            assert(inner.contains(x));
            assert(inner.to_multiset().count(x) > 0);
            if x != w {
                assert(d.to_multiset().count(x) > 0);
                assert(d.contains(x));
                let j = choose|j: int| 0 <= j < d.len() && d[j] == x;
                assert(reads_before(ws[j], ws[ws.len() - 1]));
            }
        }
        assert forall|i: int, j: int| 0 <= i < j < r.len() implies reads_before(
            #[trigger] r[i],
            #[trigger] r[j],
        ) by {
            if j == r.len() - 1 {
                assert(reads_before(inner[i], l));
            } else {
                assert(reads_before(inner[i], inner[j]));
            }
        }
        assert(r.to_multiset() =~= ws.to_multiset().insert(w));
    }
}

/// The reading order holds the same words, each as often, and puts them
/// in order.
pub proof fn law_reading_order(ws: Seq<Word>)
    ensures
        in_reading_order(reading_order(ws)),
        reading_order(ws).to_multiset() == ws.to_multiset(),
    decreases ws.len(),
{
    broadcast use vstd::seq_lib::group_to_multiset_ensures;

    if ws.len() == 0 {
        assert(reading_order(ws) =~= ws);
    } else {
        law_reading_order(ws.drop_last());
        lemma_insert_keeps_order(reading_order(ws.drop_last()), ws.last());
        assert(ws =~= ws.drop_last().push(ws.last()));
    }
}

/// The words sorted into reading order are the same words, each as often,
/// ordered lexicographically by (block, paragraph, line, word number,
/// left edge): of any two output words, the earlier one has the smaller
/// block, or the same block and a smaller paragraph, or the same block and
/// paragraph and a smaller line, and so on down to a left edge no larger.
pub proof fn law_reading_order_lexicographic(ws: Seq<Word>)
    ensures
        reading_order(ws).to_multiset() == ws.to_multiset(),
        forall|i: int, j: int|
            0 <= i < j < reading_order(ws).len() ==> {
                let a = #[trigger] reading_order(ws)[i];
                let b = #[trigger] reading_order(ws)[j];
                ||| a.block < b.block
                ||| a.block == b.block && a.par < b.par
                ||| a.block == b.block && a.par == b.par && a.line < b.line
                ||| a.block == b.block && a.par == b.par && a.line == b.line && a.word_num < b.word_num
                ||| a.block == b.block && a.par == b.par && a.line == b.line && a.word_num == b.word_num
                    && a.x <= b.x
            },
{
    law_reading_order(ws);
    let r = reading_order(ws);
    assert forall|i: int, j: int| 0 <= i < j < r.len() implies {
        let a = #[trigger] r[i];
        let b = #[trigger] r[j];
        ||| a.block < b.block
        ||| a.block == b.block && a.par < b.par
        ||| a.block == b.block && a.par == b.par && a.line < b.line
        ||| a.block == b.block && a.par == b.par && a.line == b.line && a.word_num < b.word_num
        ||| a.block == b.block && a.par == b.par && a.line == b.line && a.word_num == b.word_num && a.x
            <= b.x
    } by {
        assert(reads_before(r[i], r[j]));
    }
}

/// Copying a selection joins consecutive words with a space exactly when
/// they share block, paragraph and line, and with a newline otherwise: the
/// text of `ws` followed by `w` is the text of `ws`, that separator, and
/// `w`'s text.
pub proof fn law_selection_separators(ws: Seq<Word>, w: Word)
    requires
        ws.len() > 0,
    ensures
        joined_text(ws.push(w)) == joined_text(ws) + seq![
            if ws.last().block == w.block && ws.last().par == w.par && ws.last().line == w.line {
                ' '
            } else {
                '\n'
            },
        ] + w.text@,
{
    let v = ws.push(w);
    assert(v.drop_last() =~= ws);
    assert(v[v.len() - 2] == ws.last());
    assert(joined_text(ws).push(
        if ws.last().block == w.block && ws.last().par == w.par && ws.last().line == w.line {
            ' '
        } else {
            '\n'
        },
    ) =~= joined_text(ws) + seq![
        if ws.last().block == w.block && ws.last().par == w.par && ws.last().line == w.line {
            ' '
        } else {
            '\n'
        },
    ]);
}

// ---------------------------------------------------------------------------
// Selection
// ---------------------------------------------------------------------------

/// The inclusive range `[min(anchor, cursor), max(anchor, cursor)]` when
/// both ends are set.
pub open spec fn range_of(anchor: Option<usize>, cursor: Option<usize>) -> Option<(usize, usize)> {
    match (anchor, cursor) {
        (Some(a), Some(c)) => Some(
            (
                if a <= c {
                    a
                } else {
                    c
                },
                if a <= c {
                    c
                } else {
                    a
                },
            ),
        ),
        _ => None,
    }
}

/// Inclusive `(first, last)` word range between `anchor` and `cursor` if
/// both are set, else `None`.
pub fn selected_range(anchor: Option<usize>, cursor: Option<usize>) -> (r: Option<(usize, usize)>)
    ensures
        r == range_of(anchor, cursor),
{
    match (anchor, cursor) {
        (Some(a), Some(c)) => Some(
            (
                if a <= c {
                    a
                } else {
                    c
                },
                if a <= c {
                    c
                } else {
                    a
                },
            ),
        ),
        _ => None,
    }
}

/// Two words share a line: same block, paragraph and line.
pub open spec fn same_line(a: Word, b: Word) -> bool {
    a.block == b.block && a.par == b.par && a.line == b.line
}

/// The words' texts joined: a space between words on the same line, a
/// newline between lines, paragraphs and blocks.
pub open spec fn joined_text(ws: Seq<Word>) -> Seq<char>
    decreases ws.len(),
{
    if ws.len() == 0 {
        Seq::<char>::empty()
    } else if ws.len() == 1 {
        ws[0].text@
    } else {
        let sep = if same_line(ws[ws.len() - 2], ws.last()) {
            ' '
        } else {
            '\n'
        };
        joined_text(ws.drop_last()).push(sep) + ws.last().text@
    }
}

/// The words that a selection covers: those of the range that exist.
pub open spec fn selected_words(words: Seq<Word>, anchor: Option<usize>, cursor: Option<usize>) -> Seq<
    Word,
> {
    match range_of(anchor, cursor) {
        None => Seq::<Word>::empty(),
        Some((lo, hi)) => if lo >= words.len() {
            Seq::<Word>::empty()
        } else if hi < words.len() {
            words.subrange(lo as int, hi + 1)
        } else {
            words.subrange(lo as int, words.len() as int)
        },
    }
}

fn append_str(out: &mut String, s: &String)
    ensures
        final(out)@ == old(out)@ + s@,
{
    let chars = chars_of(s.as_str());
    let mut i: usize = 0;
    while i < chars.len()
        invariant
            i <= chars.len(),
            chars@ == s@,
            out@ =~= old(out)@ + chars@.take(i as int),
        decreases chars.len() - i,
    {
        push_char(out, chars[i]);
        i += 1;
    }
    assert(chars@.take(chars@.len() as int) =~= chars@);
}

/// Concatenates the selected words with line-aware separators: a space
/// between words on the same line, a newline between lines, paragraphs and
/// blocks. Empty when nothing is selected.
pub fn build_selected_text(words: &Vec<Word>, anchor: Option<usize>, cursor: Option<usize>) -> (r:
    String)
    ensures
        r@ == joined_text(selected_words(words@, anchor, cursor)),
{
    let mut out = String::new();
    let (lo, hi) = match selected_range(anchor, cursor) {
        Some(range) => range,
        None => {
            return out;
        },
    };
    if lo >= words.len() {
        return out;
    }
    let end = if hi < words.len() {
        hi + 1
    } else {
        words.len()
    };
    let ghost sel = words@.subrange(lo as int, end as int);
    assert(sel =~= selected_words(words@, anchor, cursor));
    let mut i: usize = lo;
    while i < end
        invariant
            lo <= i <= end,
            lo < end <= words.len(),
            sel == words@.subrange(lo as int, end as int),
            out@ == joined_text(sel.take(i - lo)),
        decreases end - i,
    {
        let w = &words[i];
        let ghost part = sel.take(i + 1 - lo);
        assert(part.drop_last() =~= sel.take(i - lo));
        assert(part.last() == words@[i as int]);
        if i > lo {
            let p = &words[i - 1];
            assert(part[part.len() - 2] == words@[i - 1]);
            if w.block != p.block || w.par != p.par || w.line != p.line {
                push_char(&mut out, '\n');
            } else {
                push_char(&mut out, ' ');
            }
        }
        append_str(&mut out, &w.text);
        i += 1;
        assert(out@ =~= joined_text(sel.take(i - lo)));
    }
    assert(sel.take(end - lo) =~= sel);
    out
}

/// Word `w`'s box contains the point `(cx, cy)`.
pub open spec fn contains_point(w: Word, cx: int, cy: int) -> bool {
    cx >= w.x && cx < w.x + w.w && cy >= w.y && cy < w.y + w.h
}

/// Hit-tests the word list at compositor-space `(cx, cy)`: the index of the
/// first word whose box contains the point, if any.
pub fn hit(words: &Vec<Word>, cx: i32, cy: i32) -> (r: Option<usize>)
    ensures
        match r {
            Some(i) => i < words@.len() && contains_point(words@[i as int], cx as int, cy as int)
                && forall|k: int| 0 <= k < i ==> !contains_point(words@[k], cx as int, cy as int),
            None => forall|k: int|
                0 <= k < words@.len() ==> !contains_point(words@[k], cx as int, cy as int),
        },
{
    let mut i: usize = 0;
    while i < words.len()
        invariant
            i <= words.len(),
            forall|k: int| 0 <= k < i ==> !contains_point(words@[k], cx as int, cy as int),
        decreases words.len() - i,
    {
        let w = &words[i];
        let px = cx as i64;
        let py = cy as i64;
        if px >= w.x as i64 && px < w.x as i64 + w.w as i64 && py >= w.y as i64 && py < w.y as i64
            + w.h as i64 {
            return Some(i);
        }
        i += 1;
    }
    None
}

/// The left mouse button's code.
pub const LEFT_BUTTON: u32 = 0x110;

/// A pointer event over the overlay, with the word under the pointer
/// already hit-tested where the event has a position.
#[derive(Clone, Copy, Debug)]
pub enum PointerInput {
    /// The pointer entered a surface or moved over it.
    Motion { hit: Option<usize> },
    /// The pointer left a surface.
    Leave,
    Press { button: u32, hit: Option<usize> },
    Release { button: u32 },
    Other,
}

/// The click-drag selection state of the OCR overlay.
#[derive(Clone, Copy, Debug)]
pub struct Selection {
    /// The word under the pointer.
    pub hovered: Option<usize>,
    /// Where the drag started.
    pub anchor: Option<usize>,
    /// Where the drag is now.
    pub cursor: Option<usize>,
    pub dragging: bool,
    /// Set by a release with a selection: copy it on exit.
    pub copy_on_exit: bool,
    pub exit: bool,
}

/// The selection after one pointer event, and whether the overlay needs
/// redrawing.
pub open spec fn after_pointer(s: Selection, input: PointerInput) -> (Selection, bool) {
    match input {
        PointerInput::Motion { hit } => {
            let hover_changed = hit != s.hovered;
            let s1 = Selection { hovered: hit, ..s };
            if s.dragging && hit is Some && s.cursor != hit {
                (Selection { cursor: hit, ..s1 }, true)
            } else {
                (s1, hover_changed)
            }
        },
        PointerInput::Leave => if s.hovered is Some {
            (Selection { hovered: None, ..s }, true)
        } else {
            (s, false)
        },
        PointerInput::Press { button, hit } => if button != LEFT_BUTTON {
            (s, false)
        } else {
            match hit {
                Some(h) => (
                    Selection { anchor: Some(h), cursor: Some(h), dragging: true, ..s },
                    true,
                ),
                None => (Selection { anchor: None, cursor: None, dragging: false, ..s }, true),
            }
        },
        PointerInput::Release { button } => if button != LEFT_BUTTON {
            (s, false)
        } else if s.anchor is Some && s.cursor is Some {
            (Selection { dragging: false, copy_on_exit: true, exit: true, ..s }, false)
        } else {
            (Selection { dragging: false, ..s }, false)
        },
        PointerInput::Other => (s, false),
    }
}

impl Selection {
    /// Nothing hovered or selected.
    pub fn new() -> (s: Selection)
        ensures
            s.hovered is None && s.anchor is None && s.cursor is None,
            !s.dragging && !s.copy_on_exit && !s.exit,
    {
        Selection {
            hovered: None,
            anchor: None,
            cursor: None,
            dragging: false,
            copy_on_exit: false,
            exit: false,
        }
    }

    /// A drag always has both ends.
    pub open spec fn wf(self) -> bool {
        self.dragging ==> self.anchor is Some && self.cursor is Some
    }

    /// Applies one pointer event; returns whether the overlay needs a
    /// redraw. Hovering follows the pointer; a left press on a word starts
    /// a selection there (elsewhere it clears the selection); dragging
    /// extends it; a left release with a selection asks to copy and exit.
    pub fn pointer(&mut self, input: PointerInput) -> (redraw: bool)
        ensures
            (*final(self), redraw) == after_pointer(*old(self), input),
    {
        match input {
            PointerInput::Motion { hit } => {
                let mut redraw = false;
                if hit != self.hovered {
                    self.hovered = hit;
                    redraw = true;
                }
                if self.dragging && hit.is_some() && self.cursor != hit {
                    self.cursor = hit;
                    redraw = true;
                }
                redraw
            },
            PointerInput::Leave => {
                if self.hovered.is_some() {
                    self.hovered = None;
                    true
                } else {
                    false
                }
            },
            PointerInput::Press { button, hit } => {
                if button != LEFT_BUTTON {
                    return false;
                }
                match hit {
                    Some(h) => {
                        self.anchor = Some(h);
                        self.cursor = Some(h);
                        self.dragging = true;
                    },
                    None => {
                        self.anchor = None;
                        self.cursor = None;
                        self.dragging = false;
                    },
                }
                true
            },
            PointerInput::Release { button } => {
                if button != LEFT_BUTTON {
                    return false;
                }
                self.dragging = false;
                if self.anchor.is_some() && self.cursor.is_some() {
                    self.copy_on_exit = true;
                    self.exit = true;
                }
                false
            },
            PointerInput::Other => false,
        }
    }

    /// Escape: leave without copying, even with a selection made.
    pub fn escape(&mut self)
        ensures
            *final(self) == (Selection { copy_on_exit: false, exit: true, ..*old(self) }),
    {
        self.copy_on_exit = false;
        self.exit = true;
    }
}

/// Every pointer event keeps a drag's two ends set.
pub proof fn lemma_pointer_keeps_wf(s: Selection, input: PointerInput)
    requires
        s.wf(),
    ensures
        after_pointer(s, input).0.wf(),
{
}

/// Selection indices only ever come from hit tests: when the state's
/// indices and the event's hit are below `n`, so are the new state's.
pub proof fn lemma_pointer_in_bounds(s: Selection, input: PointerInput, n: usize)
    requires
        s.hovered matches Some(i) ==> i < n,
        s.anchor matches Some(i) ==> i < n,
        s.cursor matches Some(i) ==> i < n,
        input matches PointerInput::Motion { hit } ==> (hit matches Some(i) ==> i < n),
        input matches PointerInput::Press { hit, .. } ==> (hit matches Some(i) ==> i < n),
    ensures
        ({
            let t = after_pointer(s, input).0;
            &&& t.hovered matches Some(i) ==> i < n
            &&& t.anchor matches Some(i) ==> i < n
            &&& t.cursor matches Some(i) ==> i < n
        }),
{
}

/// A left press on a word followed by a left release ends the session
/// with that word to copy.
pub proof fn lemma_click_copies(s: Selection, h: usize)
    ensures
        ({
            let pressed = after_pointer(s, PointerInput::Press { button: LEFT_BUTTON, hit: Some(h) }).0;
            let released = after_pointer(pressed, PointerInput::Release { button: LEFT_BUTTON }).0;
            &&& released.exit
            &&& released.copy_on_exit
            &&& range_of(released.anchor, released.cursor) == Some((h, h))
            &&& !released.dragging
        }),
{
}

/// A left press off every word clears the selection, so the release that
/// follows does not copy.
pub proof fn lemma_miss_clears(s: Selection)
    requires
        !s.copy_on_exit,
    ensures
        ({
            let pressed = after_pointer(s, PointerInput::Press { button: LEFT_BUTTON, hit: None }).0;
            let released = after_pointer(pressed, PointerInput::Release { button: LEFT_BUTTON }).0;
            &&& range_of(released.anchor, released.cursor) is None
            &&& !released.copy_on_exit
        }),
{
}

// ---------------------------------------------------------------------------
// Notification preview
// ---------------------------------------------------------------------------

/// Newlines turned into spaces, cut to 60 characters plus an ellipsis when
/// longer.
pub open spec fn preview_of(text: Seq<char>) -> Seq<char> {
    let flat = text.map_values(|c: char| if c == '\n' { ' ' } else { c });
    if flat.len() > 60 {
        flat.take(60).push('…')
    } else {
        flat
    }
}

/// The preview of copied text shown in the notification: newlines as
/// spaces, at most the first 60 characters, then `…` when cut.
pub fn copy_preview(text: &str) -> (r: String)
    ensures
        r@ == preview_of(text@),
{
    let chars = chars_of(text);
    let ghost flat = text@.map_values(|c: char| if c == '\n' { ' ' } else { c });
    let limit: usize = if chars.len() > 60 {
        60
    } else {
        chars.len()
    };
    let mut out = String::new();
    let mut i: usize = 0;
    while i < limit
        invariant
            i <= limit <= chars.len(),
            chars@ == text@,
            flat == text@.map_values(|c: char| if c == '\n' { ' ' } else { c }),
            out@ =~= flat.take(i as int),
        decreases limit - i,
    {
        let c = chars[i];
        push_char(&mut out, if c == '\n' { ' ' } else { c });
        i += 1;
    }
    if chars.len() > 60 {
        push_char(&mut out, '…');
    } else {
        assert(flat.take(limit as int) =~= flat);
    }
    out
}

} // verus!
