//! The cards of a deck: each emoji of a selected category with its
//! annotation, where it has one.
//!
//! The emoji table lists the categories in order, each with its emojis;
//! the annotation table has one block per category, in the same order, and
//! one entry per emoji. Both are read as far as both go.
use vstd::prelude::*;
use crate::available::pair_views;
use crate::build::categories::contains_text;
use crate::text::{chars_of, split_on, split_on_double, split_seq, views};

verus! {

/// The models of the rows of the emoji table.
pub open spec fn emoji_rows(v: Seq<(String, Vec<String>)>) -> Seq<(Seq<char>, Seq<Seq<char>>)> {
    v.map_values(|r: (String, Vec<String>)| (r.0@, views(r.1@)))
}

pub open spec fn min(a: int, b: int) -> int {
    if a <= b {
        a
    } else {
        b
    }
}

/// The cards of the first `n` emojis of a category: each emoji with its
/// annotation, those without annotation left out.
pub open spec fn row_cards(emojis: Seq<Seq<char>>, annots: Seq<Seq<char>>, n: int) -> Seq<
    (Seq<char>, Seq<char>),
>
    decreases n,
{
    if n <= 0 {
        seq![]
    } else {
        let prev = row_cards(emojis, annots, n - 1);
        if annots[n - 1].len() > 0 {
            prev.push((emojis[n - 1], annots[n - 1]))
        } else {
            prev
        }
    }
}

/// The cards of a category's row.
pub open spec fn category_cards(emojis: Seq<Seq<char>>, annots: Seq<Seq<char>>) -> Seq<
    (Seq<char>, Seq<char>),
> {
    row_cards(emojis, annots, min(emojis.len() as int, annots.len() as int))
}

/// The cards of the first `n` categories, those not selected left out.
pub open spec fn cards_upto(
    rows: Seq<(Seq<char>, Seq<Seq<char>>)>,
    annots: Seq<Seq<Seq<char>>>,
    selected: Seq<Seq<char>>,
    n: int,
) -> Seq<(Seq<char>, Seq<char>)>
    decreases n,
{
    if n <= 0 {
        seq![]
    } else {
        let prev = cards_upto(rows, annots, selected, n - 1);
        if selected.contains(rows[n - 1].0) {
            prev + category_cards(rows[n - 1].1, annots[n - 1])
        } else {
            prev
        }
    }
}

/// The cards of a deck: those of the selected categories, in the order of
/// the emoji table.
pub open spec fn spec_cards(
    rows: Seq<(Seq<char>, Seq<Seq<char>>)>,
    annots: Seq<Seq<Seq<char>>>,
    selected: Seq<Seq<char>>,
) -> Seq<(Seq<char>, Seq<char>)> {
    cards_upto(rows, annots, selected, min(rows.len() as int, annots.len() as int))
}

/// The emoji table as the generator writes it: the `i`-th category of the
/// list `categories` (NUL-terminated codes) with the `i`-th group of
/// `emojis` (groups separated by two NUL characters, emojis by one), as far
/// as both go.
pub open spec fn spec_emoji_table(categories: Seq<char>, emojis: Seq<char>) -> Seq<
    (Seq<char>, Seq<Seq<char>>),
> {
    let cats = split_seq(categories, seq!['\0']);
    let groups = split_seq(emojis, seq!['\0', '\0']);
    Seq::new(
        min(cats.len() as int, groups.len() as int) as nat,
        |i: int| (cats[i], split_seq(groups[i], seq!['\0'])),
    )
}

/// The emoji table: each category with its emojis.
pub fn emoji_table(categories: &str, emojis: &str) -> (r: Vec<(String, Vec<String>)>)
    ensures
        emoji_rows(r@) == spec_emoji_table(categories@, emojis@),
{
    let cats = split_on(&chars_of(categories), '\0');
    let groups = split_on_double(&chars_of(emojis), '\0');
    let n = if cats.len() <= groups.len() {
        cats.len()
    } else {
        groups.len()
    };
    let ghost spec = spec_emoji_table(categories@, emojis@);
    let mut out: Vec<(String, Vec<String>)> = Vec::new();
    let mut i: usize = 0;
    while i < n
        invariant
            i <= n,
            n == min(views(cats@).len() as int, views(groups@).len() as int),
            views(cats@) == split_seq(categories@, seq!['\0']),
            views(groups@) == split_seq(emojis@, seq!['\0', '\0']),
            spec == spec_emoji_table(categories@, emojis@),
            emoji_rows(out@) == spec.take(i as int),
        decreases n - i,
    {
        let ems = split_on(&chars_of(groups[i].as_str()), '\0');
        let row = (cats[i].clone(), ems);
        proof {
            assert(views(cats@)[i as int] == cats@[i as int]@);
            assert(views(groups@)[i as int] == groups@[i as int]@);
            assert(emoji_rows(out@.push(row)) =~= emoji_rows(out@).push((row.0@, views(row.1@))));
            assert(spec.take(i + 1) =~= spec.take(i as int).push(spec[i as int]));
        }
        out.push(row);
        i = i + 1;
    }
    assert(spec.take(n as int) =~= spec);
    out
}

/// The cards of one category's row.
fn row_select(emojis: &Vec<String>, annots: &Vec<String>, out: &mut Vec<(String, String)>)
    ensures
        pair_views(final(out)@) == pair_views(old(out)@) + category_cards(
            views(emojis@),
            views(annots@),
        ),
{
    let n = if emojis.len() <= annots.len() {
        emojis.len()
    } else {
        annots.len()
    };
    let ghost start = pair_views(out@);
    let mut i: usize = 0;
    while i < n
        invariant
            i <= n,
            n == min(emojis.len() as int, annots.len() as int),
            pair_views(out@) == start + row_cards(views(emojis@), views(annots@), i as int),
        decreases n - i,
    {
        assert(views(annots@)[i as int] == annots@[i as int]@);
        assert(views(emojis@)[i as int] == emojis@[i as int]@);
        if !annots[i].as_str().is_empty() {
            let p = (emojis[i].clone(), annots[i].clone());
            assert(pair_views(out@.push(p)) =~= pair_views(out@).push((p.0@, p.1@)));
            out.push(p);
        } else {
            assert(annots@[i as int]@.len() == 0);
        }
        i = i + 1;
    }
}

/// The cards of a deck: for each category of the emoji table that is
/// among `selected`, each of its emojis with its annotation from the block
/// of the same position, where that annotation is not empty.
pub fn select_cards(emojis: &Vec<(String, Vec<String>)>, annots: &Vec<Vec<String>>, selected: &Vec<
    String,
>) -> (r: Vec<(String, String)>)
    ensures
        pair_views(r@) == spec_cards(
            emoji_rows(emojis@),
            crate::annot::nested_views(annots@),
            views(selected@),
        ),
{
    let ghost rows = emoji_rows(emojis@);
    let ghost av = crate::annot::nested_views(annots@);
    let n = if emojis.len() <= annots.len() {
        emojis.len()
    } else {
        annots.len()
    };
    let mut out: Vec<(String, String)> = Vec::new();
    let mut i: usize = 0;
    while i < n
        invariant
            i <= n,
            n == min(rows.len() as int, av.len() as int),
            rows == emoji_rows(emojis@),
            av == crate::annot::nested_views(annots@),
            pair_views(out@) == cards_upto(rows, av, views(selected@), i as int),
        decreases n - i,
    {
        assert(rows[i as int].0 == emojis@[i as int].0@);
        assert(rows[i as int].1 == views(emojis@[i as int].1@));
        assert(av[i as int] == views(annots@[i as int]@));
        if contains_text(selected, &emojis[i].0) {
            row_select(&emojis[i].1, &annots[i], &mut out);
        }
        i = i + 1;
    }
    out
}

proof fn lemma_row_cards(emojis: Seq<Seq<char>>, annots: Seq<Seq<char>>, n: int)
    requires
        n <= emojis.len(),
        n <= annots.len(),
    ensures
        forall|k: int|
            0 <= k < row_cards(emojis, annots, n).len() ==> {
                let c = #[trigger] row_cards(emojis, annots, n)[k];
                c.1.len() > 0 && emojis.contains(c.0)
            },
    decreases n,
{
    if n > 0 {
        lemma_row_cards(emojis, annots, n - 1);
        let prev = row_cards(emojis, annots, n - 1);
        let cur = row_cards(emojis, annots, n);
        assert forall|k: int| 0 <= k < cur.len() implies {
            let c = #[trigger] cur[k];
            c.1.len() > 0 && emojis.contains(c.0)
        } by {
            if k < prev.len() {
                assert(cur[k] == prev[k]);
            } else {
                assert(cur[k] == (emojis[n - 1], annots[n - 1]));
                assert(emojis[n - 1] == cur[k].0);
            }
        }
    }
}

proof fn lemma_cards_upto(
    rows: Seq<(Seq<char>, Seq<Seq<char>>)>,
    annots: Seq<Seq<Seq<char>>>,
    selected: Seq<Seq<char>>,
    n: int,
)
    requires
        n <= rows.len(),
        n <= annots.len(),
    ensures
        forall|k: int|
            0 <= k < cards_upto(rows, annots, selected, n).len() ==> {
                let c = #[trigger] cards_upto(rows, annots, selected, n)[k];
                c.1.len() > 0 && exists|i: int|
                    0 <= i < rows.len() && selected.contains(rows[i].0) && (
                    #[trigger] rows[i]).1.contains(c.0)
            },
    decreases n,
{
    if n > 0 {
        lemma_cards_upto(rows, annots, selected, n - 1);
        let prev = cards_upto(rows, annots, selected, n - 1);
        if selected.contains(rows[n - 1].0) {
            let es = rows[n - 1].1;
            let an = annots[n - 1];
            let m = min(es.len() as int, an.len() as int);
            lemma_row_cards(es, an, m);
            let cur = cards_upto(rows, annots, selected, n);
            assert forall|k: int| 0 <= k < cur.len() implies {
                let c = #[trigger] cur[k];
                c.1.len() > 0 && exists|i: int|
                    0 <= i < rows.len() && selected.contains(rows[i].0) && (
                    #[trigger] rows[i]).1.contains(c.0)
            } by {
                if k >= prev.len() {
                    let c = cur[k];
                    assert(c == row_cards(es, an, m)[k - prev.len()]);
                    assert(rows[n - 1].1.contains(c.0));
                } else {
                    assert(cur[k] == prev[k]);
                }
            }
        }
    }
}

/// Every card of a deck has an annotation, and its emoji is listed under
/// one of the selected categories.
pub proof fn law_cards_annotated(
    rows: Seq<(Seq<char>, Seq<Seq<char>>)>,
    annots: Seq<Seq<Seq<char>>>,
    selected: Seq<Seq<char>>,
)
    ensures
        forall|k: int|
            0 <= k < spec_cards(rows, annots, selected).len() ==> {
                let c = #[trigger] spec_cards(rows, annots, selected)[k];
                c.1.len() > 0 && exists|i: int|
                    0 <= i < rows.len() && selected.contains(rows[i].0) && (
                    #[trigger] rows[i]).1.contains(c.0)
            },
{
    lemma_cards_upto(rows, annots, selected, min(rows.len() as int, annots.len() as int));
}

proof fn lemma_row_cards_complete(emojis: Seq<Seq<char>>, annots: Seq<Seq<char>>, n: int, k: int)
    requires
        0 <= k < n,
        n <= emojis.len(),
        n <= annots.len(),
        annots[k].len() > 0,
    ensures
        row_cards(emojis, annots, n).contains((emojis[k], annots[k])),
    decreases n,
{
    let prev = row_cards(emojis, annots, n - 1);
    let cur = row_cards(emojis, annots, n);
    if k == n - 1 {
        assert(cur[cur.len() - 1] == (emojis[k], annots[k]));
    } else {
        lemma_row_cards_complete(emojis, annots, n - 1, k);
        let j = choose|j: int| 0 <= j < prev.len() && prev[j] == (emojis[k], annots[k]);
        if annots[n - 1].len() > 0 {
            assert(cur[j] == prev[j]);
        }
    }
}

proof fn lemma_cards_upto_complete(
    rows: Seq<(Seq<char>, Seq<Seq<char>>)>,
    annots: Seq<Seq<Seq<char>>>,
    selected: Seq<Seq<char>>,
    n: int,
    i: int,
    k: int,
)
    requires
        0 <= i < n,
        n <= rows.len(),
        n <= annots.len(),
        selected.contains(rows[i].0),
        0 <= k < rows[i].1.len(),
        k < annots[i].len(),
        annots[i][k].len() > 0,
    ensures
        cards_upto(rows, annots, selected, n).contains((rows[i].1[k], annots[i][k])),
    decreases n,
{
    let c = (rows[i].1[k], annots[i][k]);
    let prev = cards_upto(rows, annots, selected, n - 1);
    let cur = cards_upto(rows, annots, selected, n);
    if i == n - 1 {
        let es = rows[i].1;
        let an = annots[i];
        let m = min(es.len() as int, an.len() as int);
        lemma_row_cards_complete(es, an, m, k);
        let rc = row_cards(es, an, m);
        let j = choose|j: int| 0 <= j < rc.len() && rc[j] == c;
        assert(cur == prev + rc);
        assert(cur[prev.len() + j] == c);
    } else {
        lemma_cards_upto_complete(rows, annots, selected, n - 1, i, k);
        let j = choose|j: int| 0 <= j < prev.len() && prev[j] == c;
        if selected.contains(rows[n - 1].0) {
            assert(cur[j] == prev[j]);
        }
    }
}

/// Every emoji of a selected category that has an annotation is a card of
/// the deck, with that annotation, whatever the other categories and
/// whether they are selected: for the row `i` of the emoji table (within
/// both tables) and its `k`-th emoji (within both its row and its block of
/// annotations).
pub proof fn law_selected_emojis_are_cards(
    rows: Seq<(Seq<char>, Seq<Seq<char>>)>,
    annots: Seq<Seq<Seq<char>>>,
    selected: Seq<Seq<char>>,
    i: int,
    k: int,
)
    requires
        0 <= i < rows.len(),
        i < annots.len(),
        selected.contains(rows[i].0),
        0 <= k < rows[i].1.len(),
        k < annots[i].len(),
        annots[i][k].len() > 0,
    ensures
        spec_cards(rows, annots, selected).contains((rows[i].1[k], annots[i][k])),
{
    lemma_cards_upto_complete(
        rows,
        annots,
        selected,
        min(rows.len() as int, annots.len() as int),
        i,
        k,
    );
}

/// The card `c` is the `k`-th emoji of the row `i` of the emoji table, with
/// the `k`-th annotation of the block `i`, which is not empty, and the row's
/// category is selected.
pub open spec fn card_from(
    rows: Seq<(Seq<char>, Seq<Seq<char>>)>,
    annots: Seq<Seq<Seq<char>>>,
    selected: Seq<Seq<char>>,
    c: (Seq<char>, Seq<char>),
    i: int,
    k: int,
) -> bool {
    &&& 0 <= i < rows.len()
    &&& i < annots.len()
    &&& selected.contains(rows[i].0)
    &&& 0 <= k < rows[i].1.len()
    &&& k < annots[i].len()
    &&& annots[i][k].len() > 0
    &&& c == (rows[i].1[k], annots[i][k])
}

proof fn lemma_row_cards_sound(emojis: Seq<Seq<char>>, annots: Seq<Seq<char>>, n: int, j: int)
    requires
        0 <= n <= emojis.len(),
        n <= annots.len(),
        0 <= j < row_cards(emojis, annots, n).len(),
    ensures
        exists|k: int|
            0 <= k < n && annots[k].len() > 0 && row_cards(emojis, annots, n)[j] == (
                emojis[k],
                annots[k],
            ),
    decreases n,
{
    let prev = row_cards(emojis, annots, n - 1);
    let cur = row_cards(emojis, annots, n);
    if j < prev.len() {
        lemma_row_cards_sound(emojis, annots, n - 1, j);
        let k = choose|k: int|
            0 <= k < n - 1 && annots[k].len() > 0 && prev[j] == (emojis[k], annots[k]);
        assert(cur[j] == prev[j]);
        assert(0 <= k < n && annots[k].len() > 0 && cur[j] == (emojis[k], annots[k]));
    } else {
        assert(cur[j] == (emojis[n - 1], annots[n - 1]));
    }
}

proof fn lemma_cards_upto_sound(
    rows: Seq<(Seq<char>, Seq<Seq<char>>)>,
    annots: Seq<Seq<Seq<char>>>,
    selected: Seq<Seq<char>>,
    n: int,
    j: int,
)
    requires
        0 <= n <= rows.len(),
        n <= annots.len(),
        0 <= j < cards_upto(rows, annots, selected, n).len(),
    ensures
        exists|i: int, k: int|
            #[trigger] card_from(
                rows,
                annots,
                selected,
                cards_upto(rows, annots, selected, n)[j],
                i,
                k,
            ),
    decreases n,
{
    let prev = cards_upto(rows, annots, selected, n - 1);
    let cur = cards_upto(rows, annots, selected, n);
    if j < prev.len() {
        lemma_cards_upto_sound(rows, annots, selected, n - 1, j);
        let (i, k) = choose|i: int, k: int| #[trigger] card_from(rows, annots, selected, prev[j], i, k);
        assert(cur[j] == prev[j]);
        assert(card_from(rows, annots, selected, cur[j], i, k));
    } else {
        let es = rows[n - 1].1;
        let an = annots[n - 1];
        let m = min(es.len() as int, an.len() as int);
        let rc = row_cards(es, an, m);
        assert(cur == prev + rc);
        assert(cur[j] == rc[j - prev.len()]);
        lemma_row_cards_sound(es, an, m, j - prev.len());
        let k = choose|k: int| 0 <= k < m && an[k].len() > 0 && rc[j - prev.len()] == (es[k], an[k]);
        assert(card_from(rows, annots, selected, cur[j], n - 1, k));
    }
}

/// Every card of a deck is an emoji of a selected category with the
/// annotation at the same position of the same category's block, and that
/// annotation is not empty: so for the card `j`, some row `i` and position
/// `k` give it.
pub proof fn law_cards_pair_emoji_with_its_annotation(
    rows: Seq<(Seq<char>, Seq<Seq<char>>)>,
    annots: Seq<Seq<Seq<char>>>,
    selected: Seq<Seq<char>>,
    j: int,
)
    requires
        0 <= j < spec_cards(rows, annots, selected).len(),
    ensures
        exists|i: int, k: int|
            #[trigger] card_from(rows, annots, selected, spec_cards(rows, annots, selected)[j], i, k),
{
    let n = min(rows.len() as int, annots.len() as int);
    lemma_cards_upto_sound(rows, annots, selected, n, j);
    let c = cards_upto(rows, annots, selected, n)[j];
    let (i, k) = choose|i: int, k: int| #[trigger] card_from(rows, annots, selected, c, i, k);
    assert(card_from(rows, annots, selected, spec_cards(rows, annots, selected)[j], i, k));
}

} // verus!
