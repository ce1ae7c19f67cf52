//! The annotation table of one language: one block per category, blocks
//! separated by two NUL characters, entries inside a block by one; an entry
//! that holds the single character U+0018 (cancel) stands for "none".
use vstd::prelude::*;
use crate::text::{split_on, split_on_double, split_seq, views, chars_of};

verus! {

/// The character that marks a missing entry.
pub open spec fn cancel_mark() -> Seq<char> {
    seq!['\u{18}']
}

/// An entry as read: the cancel mark reads as the empty text.
pub open spec fn annot_entry(c: Seq<char>) -> Seq<char> {
    if c == cancel_mark() {
        seq![]
    } else {
        c
    }
}

/// The entries of one block.
pub open spec fn annot_block(l: Seq<char>) -> Seq<Seq<char>> {
    split_seq(l, seq!['\0']).map_values(|c: Seq<char>| annot_entry(c))
}

/// The blocks of an annotation table.
pub open spec fn annots_seq(s: Seq<char>) -> Seq<Seq<Seq<char>>> {
    split_seq(s, seq!['\0', '\0']).map_values(|l: Seq<char>| annot_block(l))
}

/// The models of a list of lists of strings.
pub open spec fn nested_views(v: Seq<Vec<String>>) -> Seq<Seq<Seq<char>>> {
    v.map_values(|x: Vec<String>| views(x@))
}

fn is_cancel_mark(s: &String) -> (r: bool)
    ensures
        r == (s@ == cancel_mark()),
{
    let v = chars_of(s.as_str());
    let r = v.len() == 1 && v[0] == '\u{18}';
    proof {
        if r {
            assert(v@ =~= cancel_mark());
        }
    }
    r
}

/// The entries of one block, with the cancel mark read as the empty text.
fn parse_block(l: &String) -> (r: Vec<String>)
    ensures
        views(r@) == annot_block(l@),
{
    let chars = chars_of(l.as_str());
    let parts = split_on(&chars, '\0');
    let mut out: Vec<String> = Vec::new();
    let mut i: usize = 0;
    while i < parts.len()
        invariant
            i <= parts.len(),
            views(out@) == views(parts@).take(i as int).map_values(|c: Seq<char>| annot_entry(c)),
        decreases parts.len() - i,
    {
        let e = if is_cancel_mark(&parts[i]) {
            String::new()
        } else {
            parts[i].clone()
        };
        proof {
            assert(views(out@.push(e)) =~= views(out@).push(e@));
            assert(views(parts@).take(i + 1).map_values(|c: Seq<char>| annot_entry(c))
                =~= views(parts@).take(i as int).map_values(|c: Seq<char>| annot_entry(c)).push(
                annot_entry(parts@[i as int]@),
            ));
        }
        out.push(e);
        i = i + 1;
    }
    assert(views(parts@).take(parts.len() as int) =~= views(parts@));
    out
}

/// Splits an annotation table into its blocks and their entries.
pub fn parse_annots(s: &str) -> (r: Vec<Vec<String>>)
    ensures
        nested_views(r@) == annots_seq(s@),
{
    let chars = chars_of(s);
    let blocks = split_on_double(&chars, '\0');
    let mut out: Vec<Vec<String>> = Vec::new();
    let mut i: usize = 0;
    while i < blocks.len()
        invariant
            i <= blocks.len(),
            nested_views(out@) == views(blocks@).take(i as int).map_values(
                |l: Seq<char>| annot_block(l),
            ),
        decreases blocks.len() - i,
    {
        let b = parse_block(&blocks[i]);
        proof {
            assert(nested_views(out@.push(b)) =~= nested_views(out@).push(views(b@)));
            assert(views(blocks@).take(i + 1).map_values(|l: Seq<char>| annot_block(l))
                =~= views(blocks@).take(i as int).map_values(|l: Seq<char>| annot_block(l)).push(
                annot_block(blocks@[i as int]@),
            ));
        }
        out.push(b);
        i = i + 1;
    }
    assert(views(blocks@).take(blocks.len() as int) =~= views(blocks@));
    out
}

} // verus!
