//! The list of emoji categories, in the order of their first appearance in
//! the CLDR `labels.txt` list.
use vstd::prelude::*;
use crate::labels::{label_fields, label_parts, labels_well_formed};
use crate::statuses::is_data_line;
use crate::text::{chars_of, lines_of, lines_seq, views};

verus! {

/// The categories named by the first `n` lines, each once, in the order of
/// their first appearance.
pub open spec fn categories_upto(lines: Seq<Seq<char>>, n: int) -> Seq<Seq<char>>
    decreases n,
{
    if n <= 0 {
        seq![]
    } else {
        let prev = categories_upto(lines, n - 1);
        if is_data_line(lines[n - 1]) {
            let c = label_parts(lines[n - 1])[1];
            if prev.contains(c) {
                prev
            } else {
                prev.push(c)
            }
        } else {
            prev
        }
    }
}

/// Whether `s` is among `v`.
pub fn contains_text(v: &Vec<String>, s: &String) -> (r: bool)
    ensures
        r == views(v@).contains(s@),
{
    let mut i: usize = 0;
    while i < v.len()
        invariant
            i <= v.len(),
            forall|j: int| 0 <= j < i ==> v@[j]@ != s@,
        decreases v.len() - i,
    {
        if v[i] == *s {
            assert(views(v@)[i as int] == s@);
            return true;
        }
        i = i + 1;
    }
    proof {
        if views(v@).contains(s@) {
            let j = choose|j: int| 0 <= j < views(v@).len() && views(v@)[j] == s@;
            assert(v@[j]@ == s@);
        }
    }
    false
}

/// The categories of the list `content` (the text of `labels.txt`): the
/// second field of each data line, each category once, in the order of its
/// first appearance.
pub fn get_categories(content: &str) -> (r: Vec<String>)
    requires
        labels_well_formed(content@),
    ensures
        views(r@) == categories_upto(lines_seq(content@), lines_seq(content@).len() as int),
{
    let lines = lines_of(&chars_of(content));
    let ghost ls = lines_seq(content@);
    let mut categories: Vec<String> = Vec::new();
    let mut i: usize = 0;
    while i < lines.len()
        invariant
            i <= lines.len(),
            views(lines@) == ls,
            ls == lines_seq(content@),
            labels_well_formed(content@),
            views(categories@) == categories_upto(ls, i as int),
        decreases lines.len() - i,
    {
        assert(ls[i as int] == lines@[i as int]@);
        let v = chars_of(lines[i].as_str());
        if !(v.len() == 0 || v[0] == '#') {
            let parts = label_fields(&lines[i]);
            assert(views(parts@)[1] == parts@[1]@);
            if !contains_text(&categories, &parts[1]) {
                let c = parts[1].clone();
                assert(views(categories@.push(c)) =~= views(categories@).push(c@));
                categories.push(c);
            }
        }
        i = i + 1;
    }
    categories
}

proof fn lemma_categories_unique(lines: Seq<Seq<char>>, n: int)
    ensures
        categories_upto(lines, n).no_duplicates(),
    decreases n,
{
    if n > 0 {
        lemma_categories_unique(lines, n - 1);
        let prev = categories_upto(lines, n - 1);
        let cur = categories_upto(lines, n);
        if cur != prev {
            let c = cur.last();
            assert(cur == prev.push(c));
            assert(!prev.contains(c));
            assert forall|i: int, j: int| 0 <= i < cur.len() && 0 <= j < cur.len() && i != j
                implies cur[i] != cur[j] by {
                if i < prev.len() && j < prev.len() {
                    assert(cur[i] == prev[i] && cur[j] == prev[j]);
                } else if i < prev.len() {
                    assert(cur[i] == prev[i]);
                } else {
                    assert(cur[j] == prev[j]);
                }
            }
        }
    }
}

/// Each category of the list `content` is listed once.
pub proof fn law_categories_listed_once(content: Seq<char>)
    ensures
        categories_upto(lines_seq(content), lines_seq(content).len() as int).no_duplicates(),
{
    lemma_categories_unique(lines_seq(content), lines_seq(content).len() as int);
}

} // verus!
