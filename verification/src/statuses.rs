//! The qualification status of each emoji, read from the Unicode
//! `emoji-test.txt` list.
//!
//! A data line reads `1F636 200D 1F32B FE0F ; fully-qualified # ...`: the
//! code points of the emoji in hexadecimal, separated by spaces, then after
//! a semicolon its status; what follows `#` is a comment. Lines that start
//! with `#` and empty lines are skipped.
use vstd::prelude::*;
use crate::table::TextMap;
use crate::text::{
    chars_of, char_from_u32, lines_of, lines_seq, push_char, same_text, split_on, split_seq,
    trim_seq, trim_string, views,
};

verus! {

/// The qualification status of an emoji sequence.
#[derive(Clone, Copy, Debug, PartialEq, Eq, Structural)]
pub enum Status {
    Component,
    FullyQualified,
    MinimallyQualified,
    Unqualified,
}

/// The value of a hexadecimal digit.
pub open spec fn hex_digit(c: char) -> Option<int> {
    if '0' <= c <= '9' {
        Some(c as int - '0' as int)
    } else if 'a' <= c <= 'f' {
        Some(c as int - 'a' as int + 10)
    } else if 'A' <= c <= 'F' {
        Some(c as int - 'A' as int + 10)
    } else {
        None
    }
}

pub open spec fn all_hex(s: Seq<char>) -> bool {
    forall|i: int| 0 <= i < s.len() ==> #[trigger] hex_digit(s[i]) is Some
}

/// The number that the hexadecimal digits `s` write.
pub open spec fn hex_value(s: Seq<char>) -> int
    decreases s.len(),
{
    if s.len() == 0 {
        0
    } else {
        hex_value(s.drop_last()) * 16 + hex_digit(s.last()).unwrap()
    }
}

/// What `u32::from_str_radix(s, 16)` gives: an optional `+`, then one or
/// more hexadecimal digits whose value fits in 32 bits.
pub open spec fn parse_hex_u32(s: Seq<char>) -> Option<u32> {
    let d = if s.len() > 0 && s[0] == '+' {
        s.drop_first()
    } else {
        s
    };
    if d.len() > 0 && all_hex(d) && hex_value(d) <= u32::MAX {
        Some(hex_value(d) as u32)
    } else {
        None
    }
}

pub open spec fn is_scalar(v: u32) -> bool {
    v <= 0x10FFFF && !(0xD800 <= v <= 0xDFFF)
}

/// The character that one hexadecimal token names.
pub open spec fn code_point_char(tok: Seq<char>) -> Option<char> {
    match parse_hex_u32(tok) {
        Some(v) => if is_scalar(v) {
            Some(v as char)
        } else {
            None
        },
        None => None,
    }
}

/// The emoji that a space-separated list of code points names.
pub open spec fn emoji_of(field: Seq<char>) -> Option<Seq<char>> {
    let toks = split_seq(field, seq![' ']);
    if forall|i: int| 0 <= i < toks.len() ==> #[trigger] code_point_char(toks[i]) is Some {
        Some(Seq::new(toks.len(), |i: int| code_point_char(toks[i]).unwrap()))
    } else {
        None
    }
}

/// The status that a name stands for.
pub open spec fn status_named(s: Seq<char>) -> Option<Status> {
    if s == "component"@ {
        Some(Status::Component)
    } else if s == "fully-qualified"@ {
        Some(Status::FullyQualified)
    } else if s == "minimally-qualified"@ {
        Some(Status::MinimallyQualified)
    } else if s == "unqualified"@ {
        Some(Status::Unqualified)
    } else {
        None
    }
}

/// A line that holds data: not empty and not a comment.
pub open spec fn is_data_line(l: Seq<char>) -> bool {
    !(l.len() == 0 || l[0] == '#')
}

/// The trimmed fields of a data line, its comment cut off.
pub open spec fn line_fields(l: Seq<char>) -> Seq<Seq<char>> {
    split_seq(split_seq(l, seq!['#'])[0], seq![';']).map_values(|f: Seq<char>| trim_seq(f))
}

/// The emoji and the status of a data line; `None` where the line does not
/// hold them.
pub open spec fn line_entry(l: Seq<char>) -> Option<(Seq<char>, Status)> {
    let f = line_fields(l);
    match emoji_of(f[0]) {
        None => None,
        Some(e) => if f.len() >= 2 {
            match status_named(f[1]) {
                Some(st) => Some((e, st)),
                None => None,
            }
        } else {
            None
        },
    }
}

/// Every data line of the list holds an emoji and a status.
pub open spec fn statuses_well_formed(content: Seq<char>) -> bool {
    let lines = lines_seq(content);
    forall|i: int|
        0 <= i < lines.len() && is_data_line(#[trigger] lines[i]) ==> line_entry(lines[i]) is Some
}

/// The statuses of the first `n` lines; a later line of the same emoji wins.
pub open spec fn statuses_upto(lines: Seq<Seq<char>>, n: int) -> Map<Seq<char>, Status>
    decreases n,
{
    if n <= 0 {
        Map::empty()
    } else {
        let prev = statuses_upto(lines, n - 1);
        if is_data_line(lines[n - 1]) {
            let (e, st) = line_entry(lines[n - 1]).unwrap();
            prev.insert(e, st)
        } else {
            prev
        }
    }
}

/// The statuses that the list `content` gives.
pub open spec fn spec_statuses(content: Seq<char>) -> Map<Seq<char>, Status> {
    statuses_upto(lines_seq(content), lines_seq(content).len() as int)
}

fn hex_digit_of(c: char) -> (r: Option<u32>)
    ensures
        match r {
            Some(d) => hex_digit(c) == Some(d as int) && d < 16,
            None => hex_digit(c) is None,
        },
{
    if '0' <= c && c <= '9' {
        Some((c as u32) - ('0' as u32))
    } else if 'a' <= c && c <= 'f' {
        Some((c as u32) - ('a' as u32) + 10)
    } else if 'A' <= c && c <= 'F' {
        Some((c as u32) - ('A' as u32) + 10)
    } else {
        None
    }
}

/// `u32::from_str_radix(s, 16)`, its error as `None`.
pub fn parse_hex(s: &Vec<char>) -> (r: Option<u32>)
    ensures
        r == parse_hex_u32(s@),
{
    let start: usize = if s.len() > 0 && s[0] == '+' {
        1
    } else {
        0
    };
    let ghost d = if s@.len() > 0 && s@[0] == '+' {
        s@.drop_first()
    } else {
        s@
    };
    assert(d =~= s@.subrange(start as int, s@.len() as int));
    if start >= s.len() {
        return None;
    }
    let mut acc: u64 = 0;
    let mut i = start;
    while i < s.len()
        invariant
            start <= i <= s.len(),
            d == s@.subrange(start as int, s@.len() as int),
            d == (if s@.len() > 0 && s@[0] == '+' {
                s@.drop_first()
            } else {
                s@
            }),
            all_hex(s@.subrange(start as int, i as int)),
            acc == (if hex_value(s@.subrange(start as int, i as int)) > u32::MAX {
                u32::MAX as int + 1
            } else {
                hex_value(s@.subrange(start as int, i as int))
            }),
        decreases s.len() - i,
    {
        let ghost pre = s@.subrange(start as int, i as int);
        let ghost next = s@.subrange(start as int, i + 1);
        assert(next.drop_last() =~= pre);
        assert(next.last() == s@[i as int]);
        match hex_digit_of(s[i]) {
            None => {
                proof {
                    assert(d[i - start] == s@[i as int]);
                    assert(hex_digit(d[i - start]) is None);
                    assert(!all_hex(d));
                }
                return None;
            },
            Some(dv) => {
                if acc > u32::MAX as u64 {
                    assert(hex_value(next) > u32::MAX);
                } else {
                    acc = acc * 16 + dv as u64;
                    if acc > u32::MAX as u64 {
                        acc = u32::MAX as u64 + 1;
                    }
                }
                assert forall|j: int| 0 <= j < next.len() implies #[trigger] hex_digit(next[j]) is Some by {
                    if j < pre.len() {
                        assert(next[j] == pre[j]);
                    }
                }
            },
        }
        i = i + 1;
    }
    assert(s@.subrange(start as int, s@.len() as int) == d);
    if acc > u32::MAX as u64 {
        None
    } else {
        Some(acc as u32)
    }
}

/// The emoji that a space-separated list of code points names.
fn parse_emoji(field: &String) -> (r: Option<String>)
    ensures
        match r {
            Some(e) => emoji_of(field@) == Some(e@),
            None => emoji_of(field@) is None,
        },
{
    let toks = split_on(&chars_of(field.as_str()), ' ');
    let ghost ts = split_seq(field@, seq![' ']);
    let mut e = String::new();
    let mut i: usize = 0;
    while i < toks.len()
        invariant
            i <= toks.len(),
            views(toks@) == ts,
            ts == split_seq(field@, seq![' ']),
            forall|j: int| 0 <= j < i ==> #[trigger] code_point_char(ts[j]) is Some,
            e@ == Seq::new(i as nat, |j: int| code_point_char(ts[j]).unwrap()),
        decreases toks.len() - i,
    {
        assert(ts[i as int] == toks@[i as int]@);
        let v = match parse_hex(&chars_of(toks[i].as_str())) {
            Some(v) => v,
            None => {
                assert(code_point_char(ts[i as int]) is None);
                return None;
            },
        };
        let c = match char_from_u32(v) {
            Some(c) => c,
            None => {
                assert(code_point_char(ts[i as int]) is None);
                return None;
            },
        };
        proof {
            vstd::utf8::char_u32_cast(c, v);
        }
        push_char(&mut e, c);
        i = i + 1;
        assert(e@ =~= Seq::new(i as nat, |j: int| code_point_char(ts[j]).unwrap()));
    }
    Some(e)
}

fn status_of(s: &String) -> (r: Option<Status>)
    ensures
        r == status_named(s@),
{
    if same_text(s.as_str(), "component") {
        Some(Status::Component)
    } else if same_text(s.as_str(), "fully-qualified") {
        Some(Status::FullyQualified)
    } else if same_text(s.as_str(), "minimally-qualified") {
        Some(Status::MinimallyQualified)
    } else if same_text(s.as_str(), "unqualified") {
        Some(Status::Unqualified)
    } else {
        None
    }
}

/// The emoji and the status of a data line.
fn parse_line(l: &String) -> (r: Option<(String, Status)>)
    ensures
        match r {
            Some(p) => line_entry(l@) == Some((p.0@, p.1)),
            None => line_entry(l@) is None,
        },
{
    let hash_parts = split_on(&chars_of(l.as_str()), '#');
    proof {
        crate::text::lemma_split_nonempty(l@, seq!['#']);
        assert(views(hash_parts@)[0] == hash_parts@[0]@);
    }
    let raw = split_on(&chars_of(hash_parts[0].as_str()), ';');
    proof {
        crate::text::lemma_split_nonempty(hash_parts@[0]@, seq![';']);
    }
    let ghost f = line_fields(l@);
    assert(f.len() == raw@.len());
    let field0 = trim_string(&raw[0]);
    assert(views(raw@)[0] == raw@[0]@);
    assert(f[0] == field0@);
    let e = match parse_emoji(&field0) {
        Some(e) => e,
        None => return None,
    };
    if raw.len() < 2 {
        return None;
    }
    let field1 = trim_string(&raw[1]);
    assert(views(raw@)[1] == raw@[1]@);
    assert(f[1] == field1@);
    match status_of(&field1) {
        Some(st) => Some((e, st)),
        None => None,
    }
}

/// Whether a line holds data: it is not empty and does not start with `#`.
fn data_line(l: &String) -> (r: bool)
    ensures
        r == is_data_line(l@),
{
    let v = chars_of(l.as_str());
    !(v.len() == 0 || v[0] == '#')
}

/// The status of each emoji of the list `content` (the text of
/// `emoji-test.txt`).
pub fn statuses(content: &str) -> (r: TextMap<Status>)
    requires
        statuses_well_formed(content@),
    ensures
        r@ == spec_statuses(content@),
{
    let lines = lines_of(&chars_of(content));
    let ghost ls = lines_seq(content@);
    let mut m: TextMap<Status> = TextMap::new();
    let mut i: usize = 0;
    while i < lines.len()
        invariant
            i <= lines.len(),
            views(lines@) == ls,
            ls == lines_seq(content@),
            statuses_well_formed(content@),
            m@ == statuses_upto(ls, i as int),
        decreases lines.len() - i,
    {
        assert(ls[i as int] == lines@[i as int]@);
        if data_line(&lines[i]) {
            match parse_line(&lines[i]) {
                Some((e, st)) => {
                    m.insert(e, st);
                },
                None => {
                    assert(false);
                },
            }
        }
        i = i + 1;
    }
    m
}

/// Whether every data line of `content` holds an emoji and a known
/// status, as `statuses` requires.
pub fn statuses_ok(content: &str) -> (r: bool)
    ensures
        r == statuses_well_formed(content@),
{
    let lines = lines_of(&chars_of(content));
    let ghost ls = lines_seq(content@);
    let mut i: usize = 0;
    while i < lines.len()
        invariant
            i <= lines.len(),
            views(lines@) == ls,
            ls == lines_seq(content@),
            forall|j: int| 0 <= j < i && is_data_line(#[trigger] ls[j]) ==> line_entry(ls[j]) is Some,
        decreases lines.len() - i,
    {
        assert(ls[i as int] == lines@[i as int]@);
        if data_line(&lines[i]) && parse_line(&lines[i]).is_none() {
            return false;
        }
        i = i + 1;
    }
    true
}

} // verus!
