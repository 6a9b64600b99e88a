//! Character-level string helpers. Strings are modelled by their `Seq<char>`
//! view; every helper here states its result over that view.

use vstd::prelude::*;

verus! {

broadcast use vstd::string::group_string_axioms;

/// `String::push`: the string afterwards is the old one with `c` appended.
#[verifier::external_body]
pub(crate) fn push_char(s: &mut String, c: char)
    ensures
        final(s)@ == old(s)@.push(c),
{
    s.push(c);
}

/// The characters of `s`, in order.
pub fn chars_of(s: &str) -> (v: Vec<char>)
    ensures
        v@ == s@,
{
    let mut v: Vec<char> = Vec::new();
    for c in it: s.chars()
        invariant
            it.seq() == s@,
            v@ == it.seq().take(it.index()),
    {
        v.push(c);
    }
    v
}

/// A `String` holding exactly the characters of `v`.
pub fn string_of(v: &Vec<char>) -> (s: String)
    ensures
        s@ == v@,
{
    let mut s = String::new();
    let mut i: usize = 0;
    while i < v.len()
        invariant
            i <= v.len(),
            s@ == v@.take(i as int),
        decreases v.len() - i,
    {
        push_char(&mut s, v[i]);
        assert(v@.take(i as int).push(v@[i as int]) =~= v@.take(i + 1));
        i += 1;
    }
    assert(v@.take(v@.len() as int) =~= v@);
    s
}


/// `char::is_whitespace`: the Unicode `White_Space` property.
pub open spec fn is_white_space(c: char) -> bool {
    let u = c as u32;
    ||| (0x9 <= u && u <= 0xD)
    ||| u == 0x20
    ||| u == 0x85
    ||| u == 0xA0
    ||| u == 0x1680
    ||| (0x2000 <= u && u <= 0x200A)
    ||| u == 0x2028
    ||| u == 0x2029
    ||| u == 0x202F
    ||| u == 0x205F
    ||| u == 0x3000
}

pub fn white_space(c: char) -> (b: bool)
    ensures
        b == is_white_space(c),
{
    let u = c as u32;
    (0x9 <= u && u <= 0xD) || u == 0x20 || u == 0x85 || u == 0xA0 || u == 0x1680 || (0x2000
        <= u && u <= 0x200A) || u == 0x2028 || u == 0x2029 || u == 0x202F || u == 0x205F || u
        == 0x3000
}

/// The character sequences held by a vector of character vectors.
pub open spec fn views(v: Seq<Vec<char>>) -> Seq<Seq<char>> {
    v.map_values(|x: Vec<char>| x@)
}

/// Leading white space removed.
pub open spec fn trim_start(s: Seq<char>) -> Seq<char>
    decreases s.len(),
{
    if s.len() > 0 && is_white_space(s[0]) {
        trim_start(s.drop_first())
    } else {
        s
    }
}

/// Trailing white space removed.
pub open spec fn trim_end(s: Seq<char>) -> Seq<char>
    decreases s.len(),
{
    if s.len() > 0 && is_white_space(s.last()) {
        trim_end(s.drop_last())
    } else {
        s
    }
}

/// `str::trim`: white space removed at both ends.
pub open spec fn trim(s: Seq<char>) -> Seq<char> {
    trim_end(trim_start(s))
}

/// `str::split` on a single character: the pieces between the separators,
/// an empty piece included wherever two separators touch or one stands at
/// either end.
pub open spec fn split(s: Seq<char>, sep: char) -> Seq<Seq<char>>
    decreases s.len(),
{
    if s.len() == 0 {
        seq![Seq::<char>::empty()]
    } else {
        let prev = split(s.drop_last(), sep);
        if s.last() == sep {
            prev.push(Seq::<char>::empty())
        } else {
            prev.update(prev.len() - 1, prev.last().push(s.last()))
        }
    }
}

/// The pieces joined, `sep` between each two.
pub open spec fn join(parts: Seq<Seq<char>>, sep: Seq<char>) -> Seq<char>
    decreases parts.len(),
{
    if parts.len() == 0 {
        Seq::<char>::empty()
    } else if parts.len() == 1 {
        parts[0]
    } else {
        join(parts.drop_last(), sep) + sep + parts.last()
    }
}

/// `char::to_ascii_lowercase`.
pub open spec fn ascii_lower(c: char) -> char {
    if 'A' <= c && c <= 'Z' {
        ((c as u32) + 32) as char
    } else {
        c
    }
}

/// `char::to_ascii_uppercase`.
pub open spec fn ascii_upper(c: char) -> char {
    if 'a' <= c && c <= 'z' {
        ((c as u32) - 32) as char
    } else {
        c
    }
}

/// `str::to_ascii_lowercase`.
pub open spec fn lower(s: Seq<char>) -> Seq<char> {
    s.map_values(|c: char| ascii_lower(c))
}

/// `str::to_ascii_uppercase`.
pub open spec fn upper(s: Seq<char>) -> Seq<char> {
    s.map_values(|c: char| ascii_upper(c))
}

/// Number of bytes that the UTF-8 encoding of `c` takes.
pub open spec fn utf8_width(c: char) -> nat {
    if (c as u32) < 0x80 {
        1
    } else if (c as u32) < 0x800 {
        2
    } else if (c as u32) < 0x10000 {
        3
    } else {
        4
    }
}

/// `str::len`: the length in bytes of the UTF-8 encoding.
pub open spec fn byte_len(s: Seq<char>) -> nat
    decreases s.len(),
{
    if s.len() == 0 {
        0
    } else {
        byte_len(s.drop_last()) + utf8_width(s.last())
    }
}

pub proof fn lemma_split_nonempty(s: Seq<char>, sep: char)
    ensures
        split(s, sep).len() >= 1,
    decreases s.len(),
{
    if s.len() > 0 {
        lemma_split_nonempty(s.drop_last(), sep);
    }
}

/// A piece without the separator splits into itself.
pub proof fn lemma_split_single(b: Seq<char>, sep: char)
    requires
        !b.contains(sep),
    ensures
        split(b, sep) == seq![b],
    decreases b.len(),
{
    if b.len() > 0 {
        let d = b.drop_last();
        assert(!d.contains(sep)) by {
            if d.contains(sep) {
                let k = choose|k: int| 0 <= k < d.len() && d[k] == sep;
                assert(b[k] == sep);
            }
        }
        lemma_split_single(d, sep);
        assert(b[b.len() - 1] != sep);
        assert(b.drop_last() == d);
        assert(d.push(b.last()) =~= b);
        assert(seq![d].update(0, d.push(b.last())) =~= seq![b]);
    } else {
        assert(b =~= Seq::<char>::empty());
    }
}

/// Splitting `a`, the separator, then a piece `b` without it: the pieces of
/// `a` followed by `b`.
pub proof fn lemma_split_append(a: Seq<char>, b: Seq<char>, sep: char)
    requires
        !b.contains(sep),
    ensures
        split(a + seq![sep] + b, sep) == split(a, sep).push(b),
    decreases b.len(),
{
    let s = a + seq![sep] + b;
    if b.len() == 0 {
        assert(b =~= Seq::<char>::empty());
        assert(s.drop_last() =~= a);
        assert(s.last() == sep);
        assert(split(s, sep) == split(s.drop_last(), sep).push(Seq::<char>::empty()));
    } else {
        let d = b.drop_last();
        assert(!d.contains(sep)) by {
            if d.contains(sep) {
                let k = choose|k: int| 0 <= k < d.len() && d[k] == sep;
                assert(b[k] == sep);
            }
        }
        lemma_split_append(a, d, sep);
        assert(s.drop_last() =~= a + seq![sep] + d);
        assert(s.last() == b.last());
        assert(b[b.len() - 1] != sep);
        assert(d.push(b.last()) =~= b);
        let prev = split(s.drop_last(), sep);
        assert(prev == split(a, sep).push(d));
        assert(split(s, sep) == prev.update(prev.len() - 1, prev.last().push(s.last())));
        assert(prev.update(prev.len() - 1, prev.last().push(s.last())) =~= split(a, sep).push(b));
    }
}

/// Pieces that hold no separator, joined with it, split back into
/// themselves.
pub proof fn lemma_split_join(ps: Seq<Seq<char>>, sep: char)
    requires
        ps.len() >= 1,
        forall|i: int| 0 <= i < ps.len() ==> !(#[trigger] ps[i]).contains(sep),
    ensures
        split(join(ps, seq![sep]), sep) == ps,
    decreases ps.len(),
{
    if ps.len() == 1 {
        lemma_split_single(ps[0], sep);
        assert(seq![ps[0]] =~= ps);
    } else {
        let d = ps.drop_last();
        assert forall|i: int| 0 <= i < d.len() implies !(#[trigger] d[i]).contains(sep) by {
            assert(d[i] == ps[i]);
        }
        lemma_split_join(d, sep);
        assert(!ps[ps.len() - 1].contains(sep));
        lemma_split_append(join(d, seq![sep]), ps.last(), sep);
        assert(d.push(ps.last()) =~= ps);
    }
}

/// A non-empty piece without white space at either end is its own trim.
pub open spec fn is_trimmed_word(p: Seq<char>) -> bool {
    p.len() > 0 && !is_white_space(p[0]) && !is_white_space(p.last())
}

pub proof fn lemma_trim_word(p: Seq<char>)
    requires
        is_trimmed_word(p),
    ensures
        trim(p) == p,
{
    assert(trim_start(p) == p);
    assert(trim_end(p) == p);
}

/// The pieces of a split hold no separator.
pub proof fn lemma_split_pieces(s: Seq<char>, sep: char)
    ensures
        forall|i: int| 0 <= i < split(s, sep).len() ==> !(#[trigger] split(s, sep)[i]).contains(sep),
    decreases s.len(),
{
    if s.len() > 0 {
        let d = s.drop_last();
        lemma_split_pieces(d, sep);
        lemma_split_nonempty(d, sep);
        let prev = split(d, sep);
        if s.last() != sep {
            let l = prev.last().push(s.last());
            assert(!prev[prev.len() - 1].contains(sep));
            assert(!l.contains(sep)) by {
                if l.contains(sep) {
                    let k = choose|k: int| 0 <= k < l.len() && l[k] == sep;
                    assert(prev.last()[k] == sep);
                }
            }
        }
    }
}

/// Trimming the start keeps the text's characters and leaves a first
/// character that is not white space.
proof fn lemma_trim_start_props(s: Seq<char>)
    ensures
        trim_start(s).len() > 0 ==> !is_white_space(trim_start(s)[0]),
        forall|c: char| trim_start(s).contains(c) ==> s.contains(c),
        trim_start(s).len() > 0 ==> trim_start(s).last() == s.last(),
    decreases s.len(),
{
    if s.len() > 0 && is_white_space(s[0]) {
        lemma_trim_start_props(s.drop_first());
        assert forall|c: char| trim_start(s).contains(c) implies s.contains(c) by {
            let k = choose|k: int| 0 <= k < trim_start(s).len() && trim_start(s)[k] == c;
            assert(s.drop_first().contains(c));
            let j = choose|j: int| 0 <= j < s.drop_first().len() && s.drop_first()[j] == c;
            assert(s[j + 1] == c);
        }
    }
}

/// Trimming the end keeps the text's characters, its first character, and
/// leaves a last character that is not white space.
proof fn lemma_trim_end_props(s: Seq<char>)
    ensures
        trim_end(s).len() > 0 ==> !is_white_space(trim_end(s).last()),
        trim_end(s).len() > 0 ==> trim_end(s)[0] == s[0],
        forall|c: char| trim_end(s).contains(c) ==> s.contains(c),
    decreases s.len(),
{
    if s.len() > 0 && is_white_space(s.last()) {
        lemma_trim_end_props(s.drop_last());
        assert forall|c: char| trim_end(s).contains(c) implies s.contains(c) by {
            assert(s.drop_last().contains(c));
            let j = choose|j: int| 0 <= j < s.drop_last().len() && s.drop_last()[j] == c;
            assert(s[j] == c);
        }
    }
}

/// A trimmed text that is not empty is a trimmed word, and holds only
/// characters of the text.
pub proof fn lemma_trim_props(s: Seq<char>)
    ensures
        trim(s).len() > 0 ==> is_trimmed_word(trim(s)),
        forall|c: char| trim(s).contains(c) ==> s.contains(c),
{
    lemma_trim_start_props(s);
    lemma_trim_end_props(trim_start(s));
    if trim(s).len() > 0 {
        assert(trim_start(s).len() > 0);
    }
}

/// Every character is white space.
pub open spec fn all_white(p: Seq<char>) -> bool {
    forall|i: int| 0 <= i < p.len() ==> is_white_space(#[trigger] p[i])
}

/// Extending the text by a piece without the separator extends its last
/// piece.
pub proof fn lemma_split_extend(a: Seq<char>, c: Seq<char>, sep: char)
    requires
        !c.contains(sep),
    ensures
        split(a + c, sep) == split(a, sep).update(
            split(a, sep).len() - 1,
            split(a, sep).last() + c,
        ),
    decreases c.len(),
{
    lemma_split_nonempty(a, sep);
    let pa = split(a, sep);
    if c.len() == 0 {
        assert(a + c =~= a);
        assert(pa.last() + c =~= pa.last());
        assert(pa.update(pa.len() - 1, pa.last()) =~= pa);
    } else {
        let d = c.drop_last();
        assert(!d.contains(sep)) by {
            if d.contains(sep) {
                let k = choose|k: int| 0 <= k < d.len() && d[k] == sep;
                assert(c[k] == sep);
            }
        }
        lemma_split_extend(a, d, sep);
        assert((a + c).drop_last() =~= a + d);
        assert((a + c).last() == c.last());
        assert(c[c.len() - 1] != sep);
        let prev = split(a + d, sep);
        assert(split(a + c, sep) == prev.update(prev.len() - 1, prev.last().push(c.last())));
        assert((pa.last() + d).push(c.last()) =~= pa.last() + c);
        assert(prev.update(prev.len() - 1, prev.last().push(c.last())) =~= pa.update(
            pa.len() - 1,
            pa.last() + c,
        ));
    }
}

proof fn lemma_white_trim_start(p: Seq<char>, m: Seq<char>)
    requires
        all_white(p),
    ensures
        trim_start(p + m) == trim_start(m),
    decreases p.len(),
{
    if p.len() > 0 {
        assert(is_white_space(p[0]));
        assert((p + m)[0] == p[0]);
        assert((p + m).drop_first() =~= p.drop_first() + m);
        lemma_white_trim_start(p.drop_first(), m);
    } else {
        assert(p + m =~= m);
    }
}

/// White space before a trimmed word trims away.
pub proof fn lemma_white_then_word(p: Seq<char>, m: Seq<char>)
    requires
        all_white(p),
        is_trimmed_word(m),
    ensures
        trim(p + m) == m,
{
    lemma_white_trim_start(p, m);
    lemma_trim_word(m);
    assert(trim_start(m) == m);
}

/// Text of white space only trims to nothing.
pub proof fn lemma_white_trims_empty(p: Seq<char>)
    requires
        all_white(p),
    ensures
        trim(p).len() == 0,
{
    lemma_white_trim_start(p, Seq::<char>::empty());
    assert(p + Seq::<char>::empty() =~= p);
    assert(trim_start(Seq::<char>::empty()) =~= Seq::<char>::empty());
}

pub proof fn lemma_byte_len_one(s: Seq<char>)
    ensures
        byte_len(s) == 1 <==> (s.len() == 1 && (s[0] as u32) < 0x80),
        s.len() == 0 <==> byte_len(s) == 0,
        s.len() >= 1 ==> byte_len(s) >= byte_len(s.drop_last()) + 1,
        s.len() >= 2 ==> byte_len(s) >= 2,
    decreases s.len(),
{
    if s.len() > 0 {
        lemma_byte_len_one(s.drop_last());
    }
}

pub fn ascii_lower_char(c: char) -> (r: char)
    ensures
        r == ascii_lower(c),
{
    if 'A' <= c && c <= 'Z' {
        let u: u32 = c as u32;
        ((u + 32) as u8) as char
    } else {
        c
    }
}

pub fn ascii_upper_char(c: char) -> (r: char)
    ensures
        r == ascii_upper(c),
{
    if 'a' <= c && c <= 'z' {
        let u: u32 = c as u32;
        ((u - 32) as u8) as char
    } else {
        c
    }
}

/// `to_ascii_lowercase` over a whole character vector.
pub fn lower_chars(v: &Vec<char>) -> (r: Vec<char>)
    ensures
        r@ == lower(v@),
{
    let mut r: Vec<char> = Vec::new();
    let mut i: usize = 0;
    while i < v.len()
        invariant
            i <= v.len(),
            r@ =~= lower(v@.take(i as int)),
        decreases v.len() - i,
    {
        r.push(ascii_lower_char(v[i]));
        i += 1;
        assert(lower(v@.take(i as int)) =~= lower(v@.take(i - 1)).push(ascii_lower(v@[i - 1])));
    }
    assert(v@.take(v@.len() as int) =~= v@);
    r
}

/// `to_ascii_uppercase` over a whole character vector.
pub fn upper_chars(v: &Vec<char>) -> (r: Vec<char>)
    ensures
        r@ == upper(v@),
{
    let mut r: Vec<char> = Vec::new();
    let mut i: usize = 0;
    while i < v.len()
        invariant
            i <= v.len(),
            r@ =~= upper(v@.take(i as int)),
        decreases v.len() - i,
    {
        r.push(ascii_upper_char(v[i]));
        i += 1;
        assert(upper(v@.take(i as int)) =~= upper(v@.take(i - 1)).push(ascii_upper(v@[i - 1])));
    }
    assert(v@.take(v@.len() as int) =~= v@);
    r
}

/// Whether the UTF-8 encoding of the characters is exactly one byte long.
pub fn is_one_byte(v: &Vec<char>) -> (b: bool)
    ensures
        b == (byte_len(v@) == 1),
{
    proof {
        lemma_byte_len_one(v@);
    }
    v.len() == 1 && (v[0] as u32) < 0x80
}

/// The characters `from..to` of `v`.
pub fn sub_chars(v: &Vec<char>, from: usize, to: usize) -> (r: Vec<char>)
    requires
        from <= to <= v.len(),
    ensures
        r@ == v@.subrange(from as int, to as int),
{
    let mut r: Vec<char> = Vec::new();
    let mut i: usize = from;
    while i < to
        invariant
            from <= i <= to,
            to <= v.len(),
            r@ =~= v@.subrange(from as int, i as int),
        decreases to - i,
    {
        r.push(v[i]);
        i += 1;
    }
    r
}

/// `a` followed by `b`, in place.
pub fn extend_chars(a: &mut Vec<char>, b: &Vec<char>)
    ensures
        final(a)@ == old(a)@ + b@,
{
    let mut i: usize = 0;
    while i < b.len()
        invariant
            i <= b.len(),
            a@ =~= old(a)@ + b@.take(i as int),
        decreases b.len() - i,
    {
        a.push(b[i]);
        i += 1;
    }
    assert(b@.take(b@.len() as int) =~= b@);
}

/// Whether two character vectors hold the same characters.
pub fn same_chars(a: &Vec<char>, b: &Vec<char>) -> (r: bool)
    ensures
        r == (a@ == b@),
{
    if a.len() != b.len() {
        return false;
    }
    let mut i: usize = 0;
    while i < a.len()
        invariant
            i <= a.len(),
            a.len() == b.len(),
            forall|k: int| 0 <= k < i ==> a@[k] == b@[k],
        decreases a.len() - i,
    {
        if a[i] != b[i] {
            return false;
        }
        i += 1;
    }
    assert(a@ =~= b@);
    true
}

proof fn lemma_trim_start_skip(s: Seq<char>, i: int)
    requires
        0 <= i < s.len(),
        is_white_space(s[i]),
    ensures
        trim_start(s.skip(i)) == trim_start(s.skip(i + 1)),
{
    assert(s.skip(i).drop_first() =~= s.skip(i + 1));
}

proof fn lemma_trim_end_take(s: Seq<char>, j: int)
    requires
        0 < j <= s.len(),
        is_white_space(s[j - 1]),
    ensures
        trim_end(s.take(j)) == trim_end(s.take(j - 1)),
{
    assert(s.take(j).drop_last() =~= s.take(j - 1));
}

/// `str::trim` over a character vector.
pub fn trim_chars(v: &Vec<char>) -> (r: Vec<char>)
    ensures
        r@ == trim(v@),
{
    let mut i: usize = 0;
    assert(v@.skip(0) =~= v@);
    while i < v.len() && white_space(v[i])
        invariant
            i <= v.len(),
            trim_start(v@) == trim_start(v@.skip(i as int)),
        decreases v.len() - i,
    {
        proof {
            lemma_trim_start_skip(v@, i as int);
        }
        i += 1;
    }
    let ghost u = v@.skip(i as int);
    assert(trim_start(v@) == u);
    let mut j: usize = v.len();
    assert(u.take(u.len() as int) =~= u);
    while j > i && white_space(v[j - 1])
        invariant
            i <= j <= v.len(),
            u == v@.skip(i as int),
            trim_end(u) == trim_end(u.take(j - i)),
        decreases j,
    {
        proof {
            lemma_trim_end_take(u, (j - i) as int);
        }
        j -= 1;
    }
    let r = sub_chars(v, i, j);
    assert(u.take(j - i) =~= v@.subrange(i as int, j as int));
    r
}

/// `str::split` on one character.
pub fn split_chars(v: &Vec<char>, sep: char) -> (r: Vec<Vec<char>>)
    ensures
        views(r@) == split(v@, sep),
{
    let mut pieces: Vec<Vec<char>> = Vec::new();
    let mut cur: Vec<char> = Vec::new();
    let mut i: usize = 0;
    assert(v@.take(0) =~= Seq::<char>::empty());
    assert(views(pieces@).push(cur@) =~= split(v@.take(0), sep));
    while i < v.len()
        invariant
            i <= v.len(),
            views(pieces@).push(cur@) =~= split(v@.take(i as int), sep),
        decreases v.len() - i,
    {
        let c = v[i];
        let ghost before = split(v@.take(i as int), sep);
        assert(v@.take(i + 1).drop_last() =~= v@.take(i as int));
        let ghost pdv = views(pieces@);
        if c == sep {
            let done = cur;
            pieces.push(done);
            cur = Vec::new();
            assert(views(pieces@) =~= pdv.push(before.last()));
        } else {
            cur.push(c);
            assert(views(pieces@) =~= pdv);
        }
        i += 1;
        assert(views(pieces@).push(cur@) =~= split(v@.take(i as int), sep));
    }
    let ghost pdv = views(pieces@);
    let ghost last = cur@;
    pieces.push(cur);
    assert(views(pieces@) =~= pdv.push(last));
    assert(v@.take(v@.len() as int) =~= v@);
    pieces
}

/// The pieces joined with `sep` between each two.
pub fn join_chars(parts: &Vec<Vec<char>>, sep: &Vec<char>) -> (r: Vec<char>)
    ensures
        r@ == join(views(parts@), sep@),
{
    let mut r: Vec<char> = Vec::new();
    let mut i: usize = 0;
    while i < parts.len()
        invariant
            i <= parts.len(),
            r@ == join(views(parts@).take(i as int), sep@),
        decreases parts.len() - i,
    {
        let ghost pv = views(parts@);
        assert(pv.take(i + 1).drop_last() =~= pv.take(i as int));
        if i > 0 {
            extend_chars(&mut r, sep);
        }
        extend_chars(&mut r, &parts[i]);
        i += 1;
        assert(join(pv.take(i as int), sep@) =~= r@);
    }
    assert(views(parts@).take(parts.len() as int) =~= views(parts@));
    r
}


/// A line without the `\r` of a `\r\n` ending.
pub open spec fn strip_cr(p: Seq<char>) -> Seq<char> {
    if p.len() > 0 && p.last() == '\r' {
        p.drop_last()
    } else {
        p
    }
}

/// `str::lines`: the text split at `\n`, each line ended by `\n` losing a
/// trailing `\r` too; a final `\n` does not start another line.
pub open spec fn lines(s: Seq<char>) -> Seq<Seq<char>> {
    let parts = split(s, '\n');
    let ended = parts.take(parts.len() - 1).map_values(|p: Seq<char>| strip_cr(p));
    if parts.last().len() == 0 {
        ended
    } else {
        ended.push(parts.last())
    }
}

/// `str::lines` over a character vector.
pub fn lines_of(v: &Vec<char>) -> (r: Vec<Vec<char>>)
    ensures
        views(r@) == lines(v@),
{
    let parts = split_chars(v, '\n');
    proof {
        lemma_split_nonempty(v@, '\n');
    }
    let ghost pv = views(parts@);
    let n = parts.len() - 1;
    let mut r: Vec<Vec<char>> = Vec::new();
    let mut i: usize = 0;
    while i < n
        invariant
            n == parts.len() - 1,
            pv == views(parts@),
            i <= n,
            views(r@) =~= pv.take(i as int).map_values(|p: Seq<char>| strip_cr(p)),
        decreases n - i,
    {
        let p = &parts[i];
        let ghost rv = views(r@);
        if p.len() > 0 && p[p.len() - 1] == '\r' {
            r.push(sub_chars(p, 0, p.len() - 1));
        } else {
            r.push(p.clone());
        }
        assert(views(r@) =~= rv.push(strip_cr(pv[i as int])));
        assert(pv.take(i + 1).map_values(|p: Seq<char>| strip_cr(p)) =~= pv.take(i as int).map_values(
            |p: Seq<char>| strip_cr(p),
        ).push(strip_cr(pv[i as int])));
        i += 1;
    }
    if parts[n].len() > 0 {
        let ghost rv = views(r@);
        r.push(parts[n].clone());
        assert(views(r@) =~= rv.push(pv[n as int]));
    }
    r
}

pub open spec fn is_digit(c: char) -> bool {
    '0' <= c && c <= '9'
}

pub open spec fn all_digits(s: Seq<char>) -> bool {
    forall|i: int| 0 <= i < s.len() ==> #[trigger] is_digit(s[i])
}

/// The value of a string of decimal digits.
pub open spec fn digits_value(s: Seq<char>) -> nat
    decreases s.len(),
{
    if s.len() == 0 {
        0
    } else {
        digits_value(s.drop_last()) * 10 + ((s.last() as u32) - ('0' as u32)) as nat
    }
}

/// The digits of an integer literal, without its sign.
pub open spec fn unsigned_digits(s: Seq<char>) -> Seq<char> {
    if s.len() > 0 && (s[0] == '+' || s[0] == '-') {
        s.drop_first()
    } else {
        s
    }
}

/// `u32::from_str`: an optional `+` and one or more decimal digits, within
/// range.
pub open spec fn parse_u32(s: Seq<char>) -> Option<u32> {
    let b = if s.len() > 0 && s[0] == '+' {
        s.drop_first()
    } else {
        s
    };
    if b.len() > 0 && all_digits(b) && digits_value(b) <= u32::MAX {
        Some(digits_value(b) as u32)
    } else {
        None
    }
}

/// `i32::from_str`: an optional `+` or `-` and one or more decimal digits,
/// within range.
pub open spec fn parse_i32(s: Seq<char>) -> Option<i32> {
    let b = unsigned_digits(s);
    let negative = s.len() > 0 && s[0] == '-';
    let v: int = if negative {
        -digits_value(b)
    } else {
        digits_value(b) as int
    };
    if b.len() > 0 && all_digits(b) && i32::MIN <= v && v <= i32::MAX {
        Some(v as i32)
    } else {
        None
    }
}

proof fn lemma_digits_grow(s: Seq<char>, k: int)
    requires
        0 <= k < s.len(),
        is_digit(s[k]),
    ensures
        digits_value(s.take(k + 1)) >= digits_value(s.take(k)),
        digits_value(s.take(k + 1)) == digits_value(s.take(k)) * 10 + ((s[k] as u32) - ('0' as u32)),
{
    assert(s.take(k + 1).drop_last() =~= s.take(k));
}

/// The value of the decimal digits `v[from..]`, saturated at `2^32`;
/// `None` when there are no digits or some character is not a digit.
fn decimal_from(v: &Vec<char>, from: usize) -> (r: Option<u64>)
    requires
        from <= v.len(),
    ensures
        ({
            let b = v@.skip(from as int);
            match r {
                Some(x) => b.len() > 0 && all_digits(b) && (digits_value(b) <= u32::MAX ==> x
                    == digits_value(b)) && (digits_value(b) > u32::MAX ==> x == u32::MAX + 1),
                None => !(b.len() > 0 && all_digits(b)),
            }
        }),
{
    let ghost b = v@.skip(from as int);
    if from == v.len() {
        return None;
    }
    let mut acc: u64 = 0;
    let mut over = false;
    let mut i: usize = from;
    assert(b.take(0) =~= Seq::<char>::empty());
    while i < v.len()
        invariant
            from <= i <= v.len(),
            b == v@.skip(from as int),
            all_digits(b.take(i - from)),
            !over ==> acc == digits_value(b.take(i - from)) && acc <= u32::MAX,
            over ==> acc == u32::MAX + 1 && digits_value(b.take(i - from)) > u32::MAX,
        decreases v.len() - i,
    {
        let c = v[i];
        if !('0' <= c && c <= '9') {
            assert(b[i - from] == c);
            assert(!is_digit(b[i - from]));
            return None;
        }
        let d = ((c as u32) - ('0' as u32)) as u64;
        proof {
            lemma_digits_grow(b, i - from);
            assert(b.take(i + 1 - from) =~= b.take(i - from).push(c));
        }
        if !over {
            acc = acc * 10 + d;
            if acc > 0xFFFF_FFFF {
                over = true;
                acc = 0x1_0000_0000;
            }
        }
        i += 1;
    }
    assert(b.take(v@.len() - from) =~= b);
    Some(acc)
}

/// `s.parse::<u32>().unwrap_or(0)`.
pub fn u32_or_zero(s: &Vec<char>) -> (r: u32)
    ensures
        r == match parse_u32(s@) {
            Some(v) => v,
            None => 0,
        },
{
    let from: usize = if s.len() > 0 && s[0] == '+' {
        1
    } else {
        0
    };
    assert(s@.skip(from as int) =~= if s@.len() > 0 && s@[0] == '+' {
        s@.drop_first()
    } else {
        s@
    });
    match decimal_from(s, from) {
        Some(x) => if x <= 0xFFFF_FFFF {
            x as u32
        } else {
            0
        },
        None => 0,
    }
}

/// `s.parse::<i32>().unwrap_or(0)`.
pub fn i32_or_zero(s: &Vec<char>) -> (r: i32)
    ensures
        r == match parse_i32(s@) {
            Some(v) => v,
            None => 0,
        },
{
    let negative = s.len() > 0 && s[0] == '-';
    let from: usize = if s.len() > 0 && (s[0] == '+' || s[0] == '-') {
        1
    } else {
        0
    };
    assert(s@.skip(from as int) =~= unsigned_digits(s@));
    match decimal_from(s, from) {
        Some(x) => {
            if negative {
                if x <= 0x8000_0000 {
                    (0 - (x as i64)) as i32
                } else {
                    0
                }
            } else if x <= 0x7FFF_FFFF {
                x as i32
            } else {
                0
            }
        },
        None => 0,
    }
}

} // verus!
