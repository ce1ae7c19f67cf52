//! Character-level text operations with their mathematical models.
//!
//! Every text is modelled by its sequence of characters (`Seq<char>`); the
//! executable functions here work on `Vec<char>` copies of the input and build
//! `String`s, and each states its result over the models.
use vstd::prelude::*;

verus! {

broadcast use vstd::string::group_string_axioms;

/// The models of a sequence of strings.
pub open spec fn views(v: Seq<String>) -> Seq<Seq<char>> {
    v.map_values(|x: String| x@)
}

/// The model of an optional string.
pub open spec fn opt_view(o: Option<String>) -> Option<Seq<char>> {
    match o {
        Some(s) => Some(s@),
        None => None,
    }
}

/// `pat` occurs in `s` at position `i`.
pub open spec fn occurs_at(s: Seq<char>, pat: Seq<char>, i: int) -> bool {
    0 <= i && i + pat.len() <= s.len() && s.subrange(i, i + pat.len()) == pat
}

/// The first position at or after `i` where the (non-empty) `pat` occurs in `s`.
pub open spec fn find_from(s: Seq<char>, pat: Seq<char>, i: int) -> Option<int>
    decreases s.len() - i,
{
    if pat.len() == 0 || i < 0 || i + pat.len() > s.len() {
        None
    } else if occurs_at(s, pat, i) {
        Some(i)
    } else {
        find_from(s, pat, i + 1)
    }
}

pub proof fn lemma_find_from_bounds(s: Seq<char>, pat: Seq<char>, i: int)
    ensures
        find_from(s, pat, i) matches Some(j) ==> i <= j && occurs_at(s, pat, j) && pat.len() > 0,
    decreases s.len() - i,
{
    if pat.len() == 0 || i < 0 || i + pat.len() > s.len() {
    } else if occurs_at(s, pat, i) {
    } else {
        lemma_find_from_bounds(s, pat, i + 1);
    }
}

/// No occurrence of `pat` starts in `[i, j)`.
pub proof fn lemma_find_from_none_before(s: Seq<char>, pat: Seq<char>, i: int, k: int)
    requires
        0 <= i <= k,
        find_from(s, pat, i) matches Some(j) ==> k < j,
        find_from(s, pat, i) is None ==> true,
        pat.len() > 0,
        k + pat.len() <= s.len(),
    ensures
        !occurs_at(s, pat, k),
    decreases k - i,
{
    if i == k {
    } else {
        if occurs_at(s, pat, i) {
        } else {
            lemma_find_from_none_before(s, pat, i + 1, k);
        }
    }
}

/// The pieces of `s` between the non-overlapping occurrences of `pat` found
/// from left to right, starting at position `start`.
pub open spec fn split_from(s: Seq<char>, pat: Seq<char>, start: int) -> Seq<Seq<char>>
    decreases s.len() - start,
{
    if pat.len() == 0 || start < 0 || start > s.len() {
        seq![s.subrange(start, s.len() as int)]
    } else {
        match find_from(s, pat, start) {
            None => seq![s.subrange(start, s.len() as int)],
            Some(i) => {
                proof {
                    lemma_find_from_bounds(s, pat, start);
                }
                seq![s.subrange(start, i)] + split_from(s, pat, i + pat.len())
            },
        }
    }
}

/// What `str::split` with the pattern `pat` yields for `s`.
pub open spec fn split_seq(s: Seq<char>, pat: Seq<char>) -> Seq<Seq<char>> {
    split_from(s, pat, 0)
}

/// The parts, with `sep` between each two neighbours.
pub open spec fn join_seq(parts: Seq<Seq<char>>, sep: Seq<char>) -> Seq<char>
    decreases parts.len(),
{
    if parts.len() == 0 {
        seq![]
    } else if parts.len() == 1 {
        parts[0]
    } else {
        join_seq(parts.drop_last(), sep) + sep + parts.last()
    }
}

/// What `str::replace` gives: every non-overlapping occurrence of `pat`,
/// leftmost first, replaced by `with`.
pub open spec fn replace_seq(s: Seq<char>, pat: Seq<char>, with: Seq<char>) -> Seq<char> {
    join_seq(split_seq(s, pat), with)
}

/// The characters with the Unicode `White_Space` property.
pub open spec fn is_white_space(c: char) -> bool {
    ||| '\u{9}' <= c <= '\u{d}'
    ||| c == ' '
    ||| c == '\u{85}'
    ||| c == '\u{a0}'
    ||| c == '\u{1680}'
    ||| '\u{2000}' <= c <= '\u{200a}'
    ||| c == '\u{2028}'
    ||| c == '\u{2029}'
    ||| c == '\u{202f}'
    ||| c == '\u{205f}'
    ||| c == '\u{3000}'
}

/// The number of leading white-space characters of `s`.
pub open spec fn leading_space(s: Seq<char>) -> nat
    decreases s.len(),
{
    if s.len() > 0 && is_white_space(s[0]) {
        1 + leading_space(s.drop_first())
    } else {
        0
    }
}

/// The number of trailing white-space characters of `s`.
pub open spec fn trailing_space(s: Seq<char>) -> nat
    decreases s.len(),
{
    if s.len() > 0 && is_white_space(s.last()) {
        1 + trailing_space(s.drop_last())
    } else {
        0
    }
}

/// What `str::trim` gives.
pub open spec fn trim_seq(s: Seq<char>) -> Seq<char> {
    let a = leading_space(s) as int;
    let rest = s.skip(a);
    rest.take(rest.len() - trailing_space(rest))
}

/// A line ending `\r\n` loses its carriage return.
pub open spec fn strip_cr(s: Seq<char>) -> Seq<char> {
    if s.len() > 0 && s.last() == '\r' {
        s.drop_last()
    } else {
        s
    }
}

/// What `str::lines` gives: the pieces between the line feeds, a final
/// empty piece dropped, and a carriage return dropped before each line feed.
pub open spec fn lines_seq(s: Seq<char>) -> Seq<Seq<char>> {
    let p = split_seq(s, seq!['\n']);
    let n = if p.last().len() == 0 {
        p.len() - 1
    } else {
        p.len() as int
    };
    Seq::new(n as nat, |i: int| if i < p.len() - 1 { strip_cr(p[i]) } else { p[i] })
}

/// The part before the first occurrence of `c` (all of `s` where there is none).
pub open spec fn before_char(s: Seq<char>, c: char) -> Seq<char> {
    split_seq(s, seq![c])[0]
}

pub open spec fn lower_ascii(c: char) -> char {
    if 'A' <= c <= 'Z' {
        ((c as u32) + 32) as char
    } else {
        c
    }
}

/// What `str::to_ascii_lowercase` gives.
pub open spec fn lower_ascii_seq(s: Seq<char>) -> Seq<char> {
    s.map_values(|c: char| lower_ascii(c))
}

pub proof fn lemma_split_from_len(s: Seq<char>, pat: Seq<char>, start: int)
    ensures
        split_from(s, pat, start).len() >= 1,
    decreases s.len() - start,
{
    if pat.len() == 0 || start < 0 || start > s.len() {
    } else {
        match find_from(s, pat, start) {
            None => {},
            Some(i) => {
                lemma_find_from_bounds(s, pat, start);
                lemma_split_from_len(s, pat, i + pat.len());
            },
        }
    }
}

pub proof fn lemma_split_nonempty(s: Seq<char>, pat: Seq<char>)
    ensures
        split_seq(s, pat).len() >= 1,
{
    lemma_split_from_len(s, pat, 0);
}

/// The characters of a string.
pub fn chars_of(s: &str) -> (v: Vec<char>)
    ensures
        v@ == s@,
{
    let mut v: Vec<char> = Vec::new();
    for c in it: s.chars()
        invariant
            v@ == it.seq().take(it.index() as int),
    {
        v.push(c);
    }
    v
}

/// `String::push`: appends one character.
#[verifier::external_body]
pub(crate) fn push_char(s: &mut String, c: char)
    ensures
        final(s)@ == old(s)@.push(c),
{
    s.push(c);
}

/// Appends the characters `v[from..to]` to `s`.
pub fn push_chars(s: &mut String, v: &Vec<char>, from: usize, to: usize)
    requires
        from <= to <= v.len(),
    ensures
        final(s)@ == old(s)@ + v@.subrange(from as int, to as int),
{
    let mut i = from;
    while i < to
        invariant
            from <= i <= to <= v.len(),
            s@ == old(s)@ + v@.subrange(from as int, i as int),
        decreases to - i,
    {
        push_char(s, v[i]);
        i = i + 1;
        assert(v@.subrange(from as int, i as int) =~= v@.subrange(from as int, i - 1).push(
            v@[i - 1],
        ));
    }
}

/// The string of the characters `v[from..to]`.
pub fn substring(v: &Vec<char>, from: usize, to: usize) -> (r: String)
    requires
        from <= to <= v.len(),
    ensures
        r@ == v@.subrange(from as int, to as int),
{
    let mut r = String::new();
    push_chars(&mut r, v, from, to);
    r
}

/// The string of all of `v`.
pub fn string_of(v: &Vec<char>) -> (r: String)
    ensures
        r@ == v@,
{
    let r = substring(v, 0, v.len());
    assert(v@.subrange(0, v@.len() as int) =~= v@);
    r
}

/// Whether `pat` occurs in `s` at position `i`.
pub fn matches_at(s: &Vec<char>, pat: &Vec<char>, i: usize) -> (r: bool)
    ensures
        r == occurs_at(s@, pat@, i as int),
{
    if i > s.len() || pat.len() > s.len() - i {
        return false;
    }
    let mut k: usize = 0;
    while k < pat.len()
        invariant
            i + pat.len() <= s.len(),
            k <= pat.len(),
            forall|j: int| 0 <= j < k ==> s@[i + j] == pat@[j],
        decreases pat.len() - k,
    {
        if s[i + k] != pat[k] {
            assert(s@.subrange(i as int, i + pat.len())[k as int] != pat@[k as int]);
            return false;
        }
        k = k + 1;
    }
    assert(s@.subrange(i as int, i + pat.len()) =~= pat@);
    true
}

/// `str::split` with a non-empty pattern.
pub fn split_by(s: &Vec<char>, pat: &Vec<char>) -> (r: Vec<String>)
    requires
        pat.len() > 0,
    ensures
        views(r@) == split_seq(s@, pat@),
{
    let mut out: Vec<String> = Vec::new();
    let mut start: usize = 0;
    let mut i: usize = 0;
    while i <= s.len() && pat.len() <= s.len() - i
        invariant
            pat.len() > 0,
            start <= i <= s.len(),
            find_from(s@, pat@, start as int) == find_from(s@, pat@, i as int),
            views(out@) + split_from(s@, pat@, start as int) == split_from(s@, pat@, 0),
        decreases s.len() - i,
    {
        if matches_at(s, pat, i) {
            let piece = substring(s, start, i);
            proof {
                let rest = split_from(s@, pat@, i + pat.len());
                assert(split_from(s@, pat@, start as int) == seq![piece@] + rest);
                assert(views(out@.push(piece)) =~= views(out@).push(piece@));
                assert(views(out@).push(piece@) + rest =~= views(out@) + (seq![piece@] + rest));
            }
            out.push(piece);
            start = i + pat.len();
            i = start;
        } else {
            i = i + 1;
        }
    }
    let last = substring(s, start, s.len());
    proof {
        assert(find_from(s@, pat@, i as int) is None);
        assert(split_from(s@, pat@, start as int) == seq![last@]);
        assert(views(out@.push(last)) =~= views(out@).push(last@));
        assert(views(out@).push(last@) =~= views(out@) + seq![last@]);
    }
    out.push(last);
    out
}

/// `str::split` on a single character.
pub fn split_on(s: &Vec<char>, c: char) -> (r: Vec<String>)
    ensures
        views(r@) == split_seq(s@, seq![c]),
{
    let mut pat: Vec<char> = Vec::new();
    pat.push(c);
    assert(pat@ =~= seq![c]);
    split_by(s, &pat)
}

/// `str::split` on the separator `\0\0`.
pub fn split_on_double(s: &Vec<char>, c: char) -> (r: Vec<String>)
    ensures
        views(r@) == split_seq(s@, seq![c, c]),
{
    let mut pat: Vec<char> = Vec::new();
    pat.push(c);
    pat.push(c);
    assert(pat@ =~= seq![c, c]);
    split_by(s, &pat)
}

/// Joins the parts with `sep` between each two neighbours.
pub fn join_with(parts: &Vec<String>, sep: &str) -> (r: String)
    ensures
        r@ == join_seq(views(parts@), sep@),
{
    let mut r = String::new();
    let mut i: usize = 0;
    while i < parts.len()
        invariant
            i <= parts.len(),
            r@ == join_seq(views(parts@.take(i as int)), sep@),
        decreases parts.len() - i,
    {
        proof {
            let pre = views(parts@.take(i as int));
            let post = views(parts@.take(i + 1));
            assert(post.drop_last() =~= pre);
            assert(post.last() == parts@[i as int]@);
        }
        if i > 0 {
            r.append(sep);
        }
        r.append(parts[i].as_str());
        i = i + 1;
    }
    assert(parts@.take(parts.len() as int) =~= parts@);
    r
}

/// `str::replace`.
pub fn replace_all(s: &Vec<char>, pat: &str, with: &str) -> (r: String)
    requires
        pat@.len() > 0,
    ensures
        r@ == replace_seq(s@, pat@, with@),
{
    let p = chars_of(pat);
    let parts = split_by(s, &p);
    join_with(&parts, with)
}

pub fn is_white_space_char(c: char) -> (r: bool)
    ensures
        r == is_white_space(c),
{
    ('\u{9}' <= c && c <= '\u{d}') || c == ' ' || c == '\u{85}' || c == '\u{a0}' || c
        == '\u{1680}' || ('\u{2000}' <= c && c <= '\u{200a}') || c == '\u{2028}' || c
        == '\u{2029}' || c == '\u{202f}' || c == '\u{205f}' || c == '\u{3000}'
}

proof fn lemma_leading_space(s: Seq<char>, i: int)
    requires
        0 <= i <= s.len(),
        forall|j: int| 0 <= j < i ==> is_white_space(s[j]),
    ensures
        leading_space(s) == i + leading_space(s.skip(i)),
    decreases i,
{
    if i > 0 {
        lemma_leading_space(s.drop_first(), i - 1);
        assert(s.drop_first().skip(i - 1) =~= s.skip(i));
    } else {
        assert(s.skip(0) =~= s);
    }
}

proof fn lemma_trailing_space(s: Seq<char>, i: int)
    requires
        0 <= i <= s.len(),
        forall|j: int| i <= j < s.len() ==> is_white_space(s[j]),
    ensures
        trailing_space(s) == (s.len() - i) + trailing_space(s.take(i)),
    decreases s.len() - i,
{
    if i < s.len() {
        lemma_trailing_space(s.drop_last(), i);
        assert(s.drop_last().take(i) =~= s.take(i));
    } else {
        assert(s.take(i) =~= s);
    }
}

/// `str::trim` of the characters `v[from..to]`: the bounds of what is left.
pub fn trim_bounds(v: &Vec<char>, from: usize, to: usize) -> (r: (usize, usize))
    requires
        from <= to <= v.len(),
    ensures
        from <= r.0 <= r.1 <= to,
        v@.subrange(r.0 as int, r.1 as int) == trim_seq(v@.subrange(from as int, to as int)),
{
    let ghost s = v@.subrange(from as int, to as int);
    let mut a = from;
    while a < to && is_white_space_char(v[a])
        invariant
            from <= a <= to <= v.len(),
            s == v@.subrange(from as int, to as int),
            forall|j: int| 0 <= j < a - from ==> is_white_space(s[j]),
        decreases to - a,
    {
        a = a + 1;
    }
    proof {
        lemma_leading_space(s, a - from);
        assert(s.skip(a - from) =~= v@.subrange(a as int, to as int));
        if a < to {
            assert(v@.subrange(a as int, to as int)[0] == v@[a as int]);
        }
        assert(leading_space(v@.subrange(a as int, to as int)) == 0);
    }
    let ghost rest = v@.subrange(a as int, to as int);
    let mut b = to;
    while b > a && is_white_space_char(v[b - 1])
        invariant
            a <= b <= to <= v.len(),
            rest == v@.subrange(a as int, to as int),
            forall|j: int| b - a <= j < rest.len() ==> is_white_space(rest[j]),
        decreases b - a,
    {
        b = b - 1;
    }
    proof {
        lemma_trailing_space(rest, b - a);
        assert(rest.take(b - a) =~= v@.subrange(a as int, b as int));
        if b > a {
            assert(rest.take(b - a).last() == v@[b - 1]);
        }
        assert(trailing_space(rest.take(b - a)) == 0);
        assert(rest.take(rest.len() - trailing_space(rest)) =~= v@.subrange(a as int, b as int));
    }
    (a, b)
}

/// `str::trim`.
pub fn trim_string(s: &String) -> (r: String)
    ensures
        r@ == trim_seq(s@),
{
    let v = chars_of(s.as_str());
    let (a, b) = trim_bounds(&v, 0, v.len());
    assert(v@.subrange(0, v@.len() as int) =~= v@);
    substring(&v, a, b)
}

/// Whether `s` holds the character `c`.
pub fn has_char(s: &Vec<char>, c: char) -> (r: bool)
    ensures
        r == s@.contains(c),
{
    let mut i: usize = 0;
    while i < s.len()
        invariant
            i <= s.len(),
            forall|j: int| 0 <= j < i ==> s@[j] != c,
        decreases s.len() - i,
    {
        if s[i] == c {
            return true;
        }
        i = i + 1;
    }
    false
}

/// `str::to_ascii_lowercase`.
pub fn lower_ascii_string(s: &str) -> (r: String)
    ensures
        r@ == lower_ascii_seq(s@),
{
    let v = chars_of(s);
    let mut r = String::new();
    let mut i: usize = 0;
    while i < v.len()
        invariant
            i <= v.len(),
            r@ == lower_ascii_seq(v@.take(i as int)),
        decreases v.len() - i,
    {
        let c = v[i];
        let l = if 'A' <= c && c <= 'Z' {
            let b: u8 = (c as u32) as u8;
            ((b + 32) as char)
        } else {
            c
        };
        push_char(&mut r, l);
        i = i + 1;
        assert(lower_ascii_seq(v@.take(i as int)) =~= lower_ascii_seq(v@.take(i - 1)).push(
            lower_ascii(c),
        ));
    }
    assert(v@.take(v.len() as int) =~= v@);
    r
}

/// Whether two strings are equal.
pub fn same_text(a: &str, b: &str) -> (r: bool)
    ensures
        r == (a@ == b@),
{
    let x = a.to_owned();
    let y = b.to_owned();
    x == y
}

/// `str::lines`.
pub fn lines_of(s: &Vec<char>) -> (r: Vec<String>)
    ensures
        views(r@) == lines_seq(s@),
{
    let p = split_on(s, '\n');
    proof {
        lemma_split_nonempty(s@, seq!['\n']);
    }
    let last_empty = p[p.len() - 1].as_str().is_empty();
    let n = if last_empty {
        p.len() - 1
    } else {
        p.len()
    };
    assert(views(p@).last() == p@[p.len() - 1]@);
    let mut out: Vec<String> = Vec::new();
    let mut i: usize = 0;
    while i < n
        invariant
            i <= n <= p.len(),
            p.len() >= 1,
            views(p@) == split_seq(s@, seq!['\n']),
            n == (if views(p@).last().len() == 0 {
                p.len() - 1
            } else {
                p.len() as int
            }),
            views(out@) == lines_seq(s@).take(i as int),
            lines_seq(s@).len() == n,
        decreases n - i,
    {
        let line = if i + 1 < p.len() {
            let v = chars_of(p[i].as_str());
            if v.len() > 0 && v[v.len() - 1] == '\r' {
                substring(&v, 0, v.len() - 1)
            } else {
                p[i].clone()
            }
        } else {
            p[i].clone()
        };
        proof {
            assert(views(p@)[i as int] == p@[i as int]@);
            let v = p@[i as int]@;
            if i + 1 < p.len() && v.len() > 0 && v.last() == '\r' {
                assert(v.subrange(0, v.len() - 1) =~= v.drop_last());
            }
            assert(lines_seq(s@)[i as int] == line@);
            assert(views(out@.push(line)) =~= views(out@).push(line@));
            assert(lines_seq(s@).take(i + 1) =~= lines_seq(s@).take(i as int).push(line@));
        }
        out.push(line);
        i = i + 1;
    }
    assert(lines_seq(s@).take(n as int) =~= lines_seq(s@));
    out
}

/// `char::from_u32`: the character with the code point `v`, where `v` is a
/// Unicode scalar value.
#[verifier::external_body]
pub(crate) fn char_from_u32(v: u32) -> (r: Option<char>)
    ensures
        r is Some <==> (v <= 0x10FFFF && !(0xD800 <= v <= 0xDFFF)),
        r matches Some(c) ==> c as u32 == v,
{
    char::from_u32(v)
}

/// How many times `c` occurs in `s` from position `i` on.
pub open spec fn count_from(s: Seq<char>, c: char, i: int) -> nat
    decreases s.len() - i,
{
    if i < 0 || i >= s.len() {
        0
    } else {
        (if s[i] == c {
            1nat
        } else {
            0nat
        }) + count_from(s, c, i + 1)
    }
}

/// How many times `c` occurs in `s`.
pub open spec fn count_char(s: Seq<char>, c: char) -> nat {
    count_from(s, c, 0)
}

proof fn lemma_occurs_nl(s: Seq<char>, k: int)
    requires
        0 <= k < s.len(),
    ensures
        occurs_at(s, seq!['\n'], k) <==> s[k] == '\n',
{
    if s[k] == '\n' {
        assert(s.subrange(k, k + 1) =~= seq!['\n']);
    } else {
        assert(s.subrange(k, k + 1)[0] == s[k]);
    }
}

proof fn lemma_find_nl(s: Seq<char>, i: int)
    requires
        0 <= i <= s.len(),
    ensures
        match find_from(s, seq!['\n'], i) {
            Some(j) => i <= j < s.len() && s[j] == '\n' && forall|q: int|
                i <= q < j ==> s[q] != '\n',
            None => forall|q: int| i <= q < s.len() ==> s[q] != '\n',
        },
    decreases s.len() - i,
{
    if i < s.len() {
        lemma_occurs_nl(s, i);
        if s[i] != '\n' {
            lemma_find_nl(s, i + 1);
        }
    }
}

proof fn lemma_count_gap(s: Seq<char>, c: char, i: int, j: int)
    requires
        0 <= i <= j <= s.len(),
        forall|q: int| i <= q < j ==> s[q] != c,
    ensures
        count_from(s, c, i) == count_from(s, c, j),
    decreases j - i,
{
    if i < j {
        lemma_count_gap(s, c, i + 1, j);
    }
}

proof fn lemma_split_nl(s: Seq<char>, start: int)
    requires
        0 <= start <= s.len(),
    ensures
        split_from(s, seq!['\n'], start).len() == count_from(s, '\n', start) + 1,
        split_from(s, seq!['\n'], start).last().len() <= s.len() - start,
        split_from(s, seq!['\n'], start).last() == s.subrange(
            s.len() - split_from(s, seq!['\n'], start).last().len(),
            s.len() as int,
        ),
        forall|q: int|
            s.len() - split_from(s, seq!['\n'], start).last().len() <= q < s.len() ==> s[q]
                != '\n',
        split_from(s, seq!['\n'], start).last().len() == 0 <==> (start == s.len() || s[s.len()
            - 1] == '\n'),
    decreases s.len() - start,
{
    let nl = seq!['\n'];
    lemma_find_nl(s, start);
    match find_from(s, nl, start) {
        None => {
            lemma_count_gap(s, '\n', start, s.len() as int);
        },
        Some(j) => {
            lemma_split_nl(s, j + 1);
            lemma_count_gap(s, '\n', start, j);
            let rest = split_from(s, nl, j + 1);
            assert(split_from(s, nl, start) == seq![s.subrange(start, j)] + rest);
            assert(split_from(s, nl, start).last() == rest.last());
        },
    }
}

/// The lines of a text, as `str::lines` gives them: one for each line
/// feed, and one more where the text does not end with a line feed; that
/// last line is not empty, holds no line feed, and is what follows the last
/// line feed.
pub proof fn law_lines_of_text(s: Seq<char>)
    ensures
        lines_seq(s).len() == count_char(s, '\n') + (if s.len() > 0 && s.last() != '\n' {
            1int
        } else {
            0int
        }),
        s.len() > 0 && s.last() != '\n' ==> {
            let last = lines_seq(s).last();
            &&& last.len() > 0
            &&& last == s.subrange(s.len() - last.len(), s.len() as int)
            &&& !last.contains('\n')
        },
{
    lemma_split_nl(s, 0);
    let p = split_seq(s, seq!['\n']);
    if s.len() > 0 && s.last() != '\n' {
        let last = lines_seq(s).last();
        assert(last == p.last());
        if last.contains('\n') {
            let q = choose|q: int| 0 <= q < last.len() && last[q] == '\n';
            assert(s[s.len() - last.len() + q] == last[q]);
        }
    }
}

} // verus!
