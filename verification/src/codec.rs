//! The text format of the generated tables.
//!
//! A list is written as its items, each followed by a NUL character; a table
//! is written as its rows, each written as a list and followed by one more
//! NUL character. Reading splits on NUL and on pairs of NUL characters; the
//! laws at the end of this file say what reading gives back of a write.
use vstd::prelude::*;
use crate::text::{find_from, join_seq, occurs_at, split_from, split_seq, lemma_find_from_bounds};

verus! {

/// The items, each followed by a NUL character.
pub open spec fn terminated(items: Seq<Seq<char>>) -> Seq<char>
    decreases items.len(),
{
    if items.len() == 0 {
        seq![]
    } else {
        items[0] + seq!['\0'] + terminated(items.drop_first())
    }
}

/// The rows, each written as a list and followed by a NUL character.
pub open spec fn encode_table(rows: Seq<Seq<Seq<char>>>) -> Seq<char>
    decreases rows.len(),
{
    if rows.len() == 0 {
        seq![]
    } else {
        terminated(rows[0]) + seq!['\0'] + encode_table(rows.drop_first())
    }
}

/// A text without NUL characters.
pub open spec fn nul_free(x: Seq<char>) -> bool {
    forall|k: int| 0 <= k < x.len() ==> x[k] != '\0'
}

/// Every NUL character of the text is followed by a character that is not
/// NUL (so the text neither ends with NUL nor holds two in a row).
pub open spec fn nul_single(x: Seq<char>) -> bool {
    forall|k: int|
        0 <= k < x.len() && x[k] == '\0' ==> k + 1 < x.len() && #[trigger] x[k + 1] != '\0'
}

/// Entries that a table can hold and give back: not empty, without NUL.
pub open spec fn plain_entries(row: Seq<Seq<char>>) -> bool {
    forall|j: int| 0 <= j < row.len() ==> (#[trigger] row[j]).len() > 0 && nul_free(row[j])
}

pub proof fn lemma_terminated_push(items: Seq<Seq<char>>, x: Seq<char>)
    ensures
        terminated(items.push(x)) == terminated(items) + x + seq!['\0'],
    decreases items.len(),
{
    if items.len() == 0 {
        assert(items.push(x).drop_first() =~= Seq::<Seq<char>>::empty());
        assert(terminated(items.push(x).drop_first()) == Seq::<char>::empty());
        assert(items.push(x)[0] == x);
        assert(terminated(items.push(x)) =~= x + seq!['\0']);
    } else {
        lemma_terminated_push(items.drop_first(), x);
        assert(items.push(x).drop_first() =~= items.drop_first().push(x));
        assert(items.push(x)[0] == items[0]);
        assert(terminated(items.push(x)) =~= terminated(items) + x + seq!['\0']);
    }
}

pub proof fn lemma_encode_table_push(rows: Seq<Seq<Seq<char>>>, row: Seq<Seq<char>>)
    ensures
        encode_table(rows.push(row)) == encode_table(rows) + terminated(row) + seq!['\0'],
    decreases rows.len(),
{
    if rows.len() == 0 {
        assert(rows.push(row).drop_first() =~= Seq::<Seq<Seq<char>>>::empty());
        assert(encode_table(rows.push(row).drop_first()) == Seq::<char>::empty());
        assert(rows.push(row)[0] == row);
        assert(encode_table(rows.push(row)) =~= terminated(row) + seq!['\0']);
    } else {
        lemma_encode_table_push(rows.drop_first(), row);
        assert(rows.push(row).drop_first() =~= rows.drop_first().push(row));
        assert(rows.push(row)[0] == rows[0]);
        assert(encode_table(rows.push(row)) =~= encode_table(rows) + terminated(row) + seq![
            '\0',
        ]);
    }
}

proof fn lemma_occurs_shift(p: Seq<char>, r: Seq<char>, pat: Seq<char>, k: int)
    requires
        0 <= k,
    ensures
        occurs_at(p + r, pat, p.len() + k) == occurs_at(r, pat, k),
{
    if k + pat.len() <= r.len() {
        assert((p + r).subrange(p.len() + k, p.len() + k + pat.len()) =~= r.subrange(
            k,
            k + pat.len(),
        ));
    }
}

proof fn lemma_find_shift(p: Seq<char>, r: Seq<char>, pat: Seq<char>, k: int)
    requires
        0 <= k,
    ensures
        find_from(p + r, pat, p.len() + k) == match find_from(r, pat, k) {
            Some(j) => Some(j + p.len()),
            None => None::<int>,
        },
    decreases r.len() - k,
{
    lemma_occurs_shift(p, r, pat, k);
    if pat.len() == 0 || k + pat.len() > r.len() {
    } else if occurs_at(r, pat, k) {
    } else {
        lemma_find_shift(p, r, pat, k + 1);
    }
}

proof fn lemma_split_shift(p: Seq<char>, r: Seq<char>, pat: Seq<char>, k: int)
    requires
        0 <= k <= r.len(),
        pat.len() > 0,
    ensures
        split_from(p + r, pat, p.len() + k) == split_from(r, pat, k),
    decreases r.len() - k,
{
    let s = p + r;
    lemma_find_shift(p, r, pat, k);
    lemma_find_from_bounds(r, pat, k);
    match find_from(r, pat, k) {
        None => {
            assert(s.subrange(p.len() + k, s.len() as int) =~= r.subrange(k, r.len() as int));
        },
        Some(i) => {
            assert(s.subrange(p.len() + k, i + p.len()) =~= r.subrange(k, i));
            lemma_split_shift(p, r, pat, i + pat.len());
            assert(p.len() + (i + pat.len()) == i + p.len() + pat.len());
        },
    }
}

proof fn lemma_find_at(s: Seq<char>, pat: Seq<char>, i: int, j: int)
    requires
        0 <= i <= j,
        pat.len() > 0,
        occurs_at(s, pat, j),
        forall|k: int| i <= k < j ==> !occurs_at(s, pat, k),
    ensures
        find_from(s, pat, i) == Some(j),
    decreases j - i,
{
    if i < j {
        lemma_find_at(s, pat, i + 1, j);
    }
}

proof fn lemma_find_none(s: Seq<char>, pat: Seq<char>, i: int)
    requires
        0 <= i,
        pat.len() > 0,
        forall|k: int| i <= k < s.len() ==> !occurs_at(s, pat, k),
    ensures
        find_from(s, pat, i) is None,
    decreases s.len() - i,
{
    if i + pat.len() <= s.len() {
        lemma_find_none(s, pat, i + 1);
    }
}

/// Splitting `a + pat + r` where `pat` first occurs after `a`.
proof fn lemma_split_head(a: Seq<char>, pat: Seq<char>, r: Seq<char>)
    requires
        pat.len() > 0,
        forall|k: int| 0 <= k < a.len() ==> !occurs_at(a + pat + r, pat, k),
    ensures
        split_seq(a + pat + r, pat) == seq![a] + split_seq(r, pat),
{
    let s = a + pat + r;
    assert(s.subrange(a.len() as int, (a.len() + pat.len()) as int) =~= pat);
    lemma_find_at(s, pat, 0, a.len() as int);
    assert(s.subrange(0, a.len() as int) =~= a);
    assert(s =~= (a + pat) + r);
    lemma_split_shift(a + pat, r, pat, 0);
}

/// Splitting a text in which `pat` does not occur.
proof fn lemma_split_whole(s: Seq<char>, pat: Seq<char>)
    requires
        pat.len() > 0,
        forall|k: int| 0 <= k < s.len() ==> !occurs_at(s, pat, k),
    ensures
        split_seq(s, pat) == seq![s],
{
    lemma_find_none(s, pat, 0);
    assert(s.subrange(0, s.len() as int) =~= s);
}

proof fn lemma_nul_free_no_occurrence(a: Seq<char>, r: Seq<char>, pat: Seq<char>, k: int)
    requires
        nul_free(a),
        pat.len() > 0,
        pat[0] == '\0',
        0 <= k < a.len(),
    ensures
        !occurs_at(a + r, pat, k),
{
    if occurs_at(a + r, pat, k) {
        assert((a + r).subrange(k, k + pat.len())[0] == (a + r)[k]);
    }
}

/// A list written with `terminated` is read back by splitting on NUL: its
/// items, then the empty text after the last NUL.
pub proof fn law_list_read_back(items: Seq<Seq<char>>)
    requires
        forall|i: int| 0 <= i < items.len() ==> nul_free(#[trigger] items[i]),
    ensures
        split_seq(terminated(items), seq!['\0']) == items.push(seq![]),
    decreases items.len(),
{
    if items.len() == 0 {
        lemma_split_whole(seq![], seq!['\0']);
        assert(items.push(seq![]) =~= seq![Seq::<char>::empty()]);
    } else {
        let a = items[0];
        let rest = items.drop_first();
        assert forall|i: int| 0 <= i < rest.len() implies nul_free(#[trigger] rest[i]) by {
            assert(rest[i] == items[i + 1]);
        }
        law_list_read_back(rest);
        assert forall|k: int| 0 <= k < a.len() implies !occurs_at(
            a + seq!['\0'] + terminated(rest),
            seq!['\0'],
            k,
        ) by {
            assert(a + seq!['\0'] + terminated(rest) =~= a + (seq!['\0'] + terminated(rest)));
            lemma_nul_free_no_occurrence(a, seq!['\0'] + terminated(rest), seq!['\0'], k);
        }
        lemma_split_head(a, seq!['\0'], terminated(rest));
        assert(seq![a] + rest.push(seq![]) =~= items.push(seq![]));
    }
}

/// `join_seq` taken from the front.
pub proof fn lemma_join_front(row: Seq<Seq<char>>, sep: Seq<char>)
    requires
        row.len() >= 2,
    ensures
        join_seq(row, sep) == row[0] + sep + join_seq(row.drop_first(), sep),
    decreases row.len(),
{
    if row.len() == 2 {
        assert(row.drop_first().len() == 1);
        assert(row.drop_last().len() == 1);
        assert(row.drop_last()[0] == row[0]);
        assert(row.drop_first()[0] == row[1]);
        assert(join_seq(row.drop_last(), sep) == row[0]);
        assert(join_seq(row.drop_first(), sep) == row[1]);
        assert(join_seq(row, sep) == join_seq(row.drop_last(), sep) + sep + row.last());
        assert(join_seq(row, sep) =~= row[0] + sep + join_seq(row.drop_first(), sep));
    } else {
        lemma_join_front(row.drop_last(), sep);
        assert(row.drop_last().drop_first() =~= row.drop_first().drop_last());
        assert(row.drop_first().last() == row.last());
        assert(join_seq(row, sep) =~= row[0] + sep + join_seq(row.drop_first(), sep));
    }
}

/// A non-empty list written with `terminated` is its items joined by NUL,
/// then one NUL.
pub proof fn lemma_terminated_join(row: Seq<Seq<char>>)
    requires
        row.len() >= 1,
    ensures
        terminated(row) == join_seq(row, seq!['\0']) + seq!['\0'],
    decreases row.len(),
{
    if row.len() == 1 {
        assert(row.drop_first() =~= Seq::<Seq<char>>::empty());
        assert(terminated(row.drop_first()) == Seq::<char>::empty());
        assert(terminated(row) =~= row[0] + seq!['\0']);
    } else {
        lemma_terminated_join(row.drop_first());
        lemma_join_front(row, seq!['\0']);
        assert(terminated(row) =~= join_seq(row, seq!['\0']) + seq!['\0']);
    }
}

/// Entries without NUL, joined by NUL, are read back by splitting on NUL.
pub proof fn law_row_read_back(row: Seq<Seq<char>>)
    requires
        row.len() >= 1,
        forall|j: int| 0 <= j < row.len() ==> nul_free(#[trigger] row[j]),
    ensures
        split_seq(join_seq(row, seq!['\0']), seq!['\0']) == row,
    decreases row.len(),
{
    if row.len() == 1 {
        assert forall|k: int| 0 <= k < row[0].len() implies !occurs_at(row[0], seq!['\0'], k) by {
            assert(row[0] + Seq::<char>::empty() =~= row[0]);
            lemma_nul_free_no_occurrence(row[0], seq![], seq!['\0'], k);
        }
        lemma_split_whole(row[0], seq!['\0']);
        assert(row =~= seq![row[0]]);
    } else {
        let rest = row.drop_first();
        assert forall|j: int| 0 <= j < rest.len() implies nul_free(#[trigger] rest[j]) by {
            assert(rest[j] == row[j + 1]);
        }
        law_row_read_back(rest);
        lemma_join_front(row, seq!['\0']);
        let a = row[0];
        let r = join_seq(rest, seq!['\0']);
        assert forall|k: int| 0 <= k < a.len() implies !occurs_at(a + seq!['\0'] + r, seq!['\0'], k) by {
            assert(a + seq!['\0'] + r =~= a + (seq!['\0'] + r));
            lemma_nul_free_no_occurrence(a, seq!['\0'] + r, seq!['\0'], k);
        }
        lemma_split_head(a, seq!['\0'], r);
        assert(seq![a] + rest =~= row);
    }
}

/// Plain entries joined by NUL hold no two NUL characters in a row, and
/// the text does not end with NUL.
proof fn lemma_join_nul_single(row: Seq<Seq<char>>)
    requires
        row.len() >= 1,
        plain_entries(row),
    ensures
        nul_single(join_seq(row, seq!['\0'])),
        join_seq(row, seq!['\0']).len() > 0,
    decreases row.len(),
{
    if row.len() == 1 {
        assert(row[0].len() > 0 && nul_free(row[0]));
    } else {
        let init = row.drop_last();
        assert forall|j: int| 0 <= j < init.len() implies (#[trigger] init[j]).len() > 0 && nul_free(
            init[j],
        ) by {
            assert(init[j] == row[j]);
        }
        lemma_join_nul_single(init);
        let a = join_seq(init, seq!['\0']);
        let b = row.last();
        assert(b.len() > 0 && nul_free(b)) by {
            assert(b == row[row.len() - 1]);
        }
        let s = a + seq!['\0'] + b;
        assert(join_seq(row, seq!['\0']) == s);
        assert forall|k: int| 0 <= k < s.len() && s[k] == '\0' implies k + 1 < s.len()
            && #[trigger] s[k + 1] != '\0' by {
            if k < a.len() {
                if k == a.len() - 1 {
                    assert(a[k] == '\0');
                    assert(!(k + 1 < a.len()));
                } else {
                    assert(a[k] == '\0');
                    assert(a[k + 1] != '\0');
                }
            } else if k == a.len() {
                assert(s[k + 1] == b[0]);
            } else {
                assert(s[k] == b[k - a.len() - 1]);
            }
        }
    }
}

/// A table of plain entries, with no empty row, is read back by splitting
/// on two NUL characters: each row joined by NUL, then the empty text after
/// the last pair; each row then splits back into its entries.
pub proof fn law_table_read_back(rows: Seq<Seq<Seq<char>>>)
    requires
        forall|i: int| 0 <= i < rows.len() ==> (#[trigger] rows[i]).len() >= 1 && plain_entries(
            rows[i],
        ),
    ensures
        split_seq(encode_table(rows), seq!['\0', '\0']) == rows.map_values(
            |r: Seq<Seq<char>>| join_seq(r, seq!['\0']),
        ).push(seq![]),
        forall|i: int|
            0 <= i < rows.len() ==> split_seq(join_seq(#[trigger] rows[i], seq!['\0']), seq!['\0'])
                == rows[i],
    decreases rows.len(),
{
    let pat = seq!['\0', '\0'];
    assert forall|i: int| 0 <= i < rows.len() implies split_seq(
        join_seq(#[trigger] rows[i], seq!['\0']),
        seq!['\0'],
    ) == rows[i] by {
        law_row_read_back(rows[i]);
    }
    if rows.len() == 0 {
        lemma_split_whole(seq![], pat);
        assert(rows.map_values(|r: Seq<Seq<char>>| join_seq(r, seq!['\0'])).push(seq![])
            =~= seq![Seq::<char>::empty()]);
    } else {
        let rest = rows.drop_first();
        assert forall|i: int| 0 <= i < rest.len() implies (#[trigger] rest[i]).len() >= 1
            && plain_entries(rest[i]) by {
            assert(rest[i] == rows[i + 1]);
        }
        law_table_read_back(rest);
        lemma_terminated_join(rows[0]);
        lemma_join_nul_single(rows[0]);
        let a = join_seq(rows[0], seq!['\0']);
        let r = encode_table(rest);
        let s = a + pat + r;
        assert(encode_table(rows) =~= s);
        assert forall|k: int| 0 <= k < a.len() implies !occurs_at(s, pat, k) by {
            if occurs_at(s, pat, k) {
                assert(s.subrange(k, k + 2)[0] == s[k]);
                assert(s.subrange(k, k + 2)[1] == s[k + 1]);
                assert(s[k] == a[k]);
                if k + 1 < a.len() {
                    assert(s[k + 1] == a[k + 1]);
                }
            }
        }
        lemma_split_head(a, pat, r);
        assert(seq![a] + rest.map_values(|r: Seq<Seq<char>>| join_seq(r, seq!['\0'])).push(seq![])
            =~= rows.map_values(|r: Seq<Seq<char>>| join_seq(r, seq!['\0'])).push(seq![]));
    }
}

} // verus!
