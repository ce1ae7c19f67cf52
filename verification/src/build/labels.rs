//! The emojis of each category, as the table generator lists them: each
//! emoji in its fully-qualified form, grouped by category.
use vstd::prelude::*;
use crate::build::categories::contains_text;
use crate::labels::{
    LabelsError, label_fields, label_parts, labels_well_formed, members_of, parse_unicode_set,
    set_members, unicode_set,
};
use crate::statuses::{Status, is_data_line};
use crate::table::TextMap;
use crate::available::pair_views;
use crate::codec::{lemma_terminated_push, law_list_read_back, nul_free, terminated};
use crate::text::split_seq;
use crate::text::{chars_of, lines_of, lines_seq, opt_view, push_char, views};

verus! {

/// The pairs (category, emoji) of the first `n` lines, in listed order, or
/// the error of the first line whose set does not parse.
pub open spec fn pairs_upto(lines: Seq<Seq<char>>, n: int) -> Result<
    Seq<(Seq<char>, Seq<char>)>,
    LabelsError,
>
    decreases n,
{
    if n <= 0 {
        Ok(seq![])
    } else {
        match pairs_upto(lines, n - 1) {
            Err(e) => Err(e),
            Ok(prev) => if is_data_line(lines[n - 1]) {
                let parts = label_parts(lines[n - 1]);
                match unicode_set(parts[0]) {
                    None => Err(LabelsError::UnparsableSet),
                    Some(set) => Ok(
                        prev + set_members(set).map_values(|m: Seq<char>| (parts[1], m)),
                    ),
                }
            } else {
                Ok(prev)
            },
        }
    }
}

/// The pairs (category, emoji) of the list `content`.
pub open spec fn spec_label_pairs(content: Seq<char>) -> Result<
    Seq<(Seq<char>, Seq<char>)>,
    LabelsError,
> {
    pairs_upto(lines_seq(content), lines_seq(content).len() as int)
}

proof fn lemma_pairs_err(lines: Seq<Seq<char>>, i: int, n: int)
    requires
        0 <= i <= n,
        pairs_upto(lines, i) is Err,
    ensures
        pairs_upto(lines, n) == pairs_upto(lines, i),
    decreases n - i,
{
    if i < n {
        lemma_pairs_err(lines, i, n - 1);
    }
}

/// The pairs (category, emoji) of the list `content`, or the error of the
/// first set that does not parse.
fn read_label_pairs(content: &str) -> (r: Result<Vec<(String, String)>, LabelsError>)
    requires
        labels_well_formed(content@),
    ensures
        match r {
            Ok(v) => spec_label_pairs(content@) == Ok::<
                Seq<(Seq<char>, Seq<char>)>,
                LabelsError,
            >(pair_views(v@)),
            Err(e) => spec_label_pairs(content@) == Err::<
                Seq<(Seq<char>, Seq<char>)>,
                LabelsError,
            >(e),
        },
{
    let lines = lines_of(&chars_of(content));
    let ghost ls = lines_seq(content@);
    let mut out: Vec<(String, String)> = Vec::new();
    assert(pair_views(out@) =~= seq![]);
    let mut i: usize = 0;
    while i < lines.len()
        invariant
            i <= lines.len(),
            views(lines@) == ls,
            ls == lines_seq(content@),
            labels_well_formed(content@),
            pairs_upto(ls, i as int) == Ok::<Seq<(Seq<char>, Seq<char>)>, LabelsError>(
                pair_views(out@),
            ),
        decreases lines.len() - i,
    {
        assert(ls[i as int] == lines@[i as int]@);
        let v = chars_of(lines[i].as_str());
        if !(v.len() == 0 || v[0] == '#') {
            let parts = label_fields(&lines[i]);
            assert(views(parts@)[0] == parts@[0]@);
            assert(views(parts@)[1] == parts@[1]@);
            let set = match parse_unicode_set(parts[0].as_str()) {
                Some(s) => s,
                None => {
                    proof {
                        lemma_pairs_err(ls, i + 1, ls.len() as int);
                    }
                    return Err(LabelsError::UnparsableSet);
                },
            };
            let ems = members_of(&set);
            let ghost o0 = pair_views(out@);
            let ghost cat = parts@[1]@;
            let mut k: usize = 0;
            while k < ems.len()
                invariant
                    k <= ems.len(),
                    parts@.len() >= 2,
                    cat == parts@[1]@,
                    pair_views(out@) == o0 + views(ems@).take(k as int).map_values(
                        |m: Seq<char>| (cat, m),
                    ),
                decreases ems.len() - k,
            {
                let p = (parts[1].clone(), ems[k].clone());
                proof {
                    assert(pair_views(out@.push(p)) =~= pair_views(out@).push((cat, ems@[k as int]@)));
                    assert(views(ems@).take(k + 1).map_values(|m: Seq<char>| (cat, m))
                        =~= views(ems@).take(k as int).map_values(|m: Seq<char>| (cat, m)).push(
                        (cat, ems@[k as int]@),
                    ));
                }
                out.push(p);
                k = k + 1;
            }
            assert(views(ems@).take(ems.len() as int) =~= views(ems@));
        }
        i = i + 1;
    }
    Ok(out)
}

/// Each emoji of the list `content` (the text of `labels.txt`) with its
/// category: for each data line, the members of its set with the line's
/// category, in listed order. Each set of the list must parse.
pub fn parse_labels(content: &str) -> (r: Vec<(String, String)>)
    requires
        labels_well_formed(content@),
        spec_label_pairs(content@) is Ok,
    ensures
        spec_label_pairs(content@) == Ok::<Seq<(Seq<char>, Seq<char>)>, LabelsError>(
            pair_views(r@),
        ),
{
    match read_label_pairs(content) {
        Ok(v) => v,
        Err(_) => {
            assert(false);
            Vec::new()
        },
    }
}

/// The pairs (category, emoji) of the list `content` as `parse_labels`
/// gives them, or the error of the first set that does not parse.
pub fn parse_labels_checked(content: &str) -> (r: Result<Vec<(String, String)>, LabelsError>)
    requires
        labels_well_formed(content@),
    ensures
        match r {
            Ok(v) => spec_label_pairs(content@) == Ok::<
                Seq<(Seq<char>, Seq<char>)>,
                LabelsError,
            >(pair_views(v@)),
            Err(e) => spec_label_pairs(content@) == Err::<
                Seq<(Seq<char>, Seq<char>)>,
                LabelsError,
            >(e),
        },
{
    match read_label_pairs(content) {
        Err(e) => Err(e),
        Ok(_) => Ok(parse_labels(content)),
    }
}

/// The first `n` texts, each kept only at its first appearance.
pub open spec fn unique_upto(s: Seq<Seq<char>>, n: int) -> Seq<Seq<char>>
    decreases n,
{
    if n <= 0 {
        seq![]
    } else {
        let prev = unique_upto(s, n - 1);
        if prev.contains(s[n - 1]) {
            prev
        } else {
            prev.push(s[n - 1])
        }
    }
}

proof fn lemma_unique_upto(s: Seq<Seq<char>>, n: int)
    ensures
        unique_upto(s, n).no_duplicates(),
    decreases n,
{
    if n > 0 {
        lemma_unique_upto(s, n - 1);
        let prev = unique_upto(s, n - 1);
        let cur = unique_upto(s, n);
        if !prev.contains(s[n - 1]) {
            assert forall|i: int, j: int| 0 <= i < cur.len() && 0 <= j < cur.len() && i != j
                implies cur[i] != cur[j] by {
                if i < prev.len() && j < prev.len() {
                    assert(cur[i] == prev[i] && cur[j] == prev[j]);
                } else if i < prev.len() {
                    assert(cur[i] == prev[i]);
                } else {
                    assert(cur[j] == prev[j]);
                }
            }
        }
    }
}

/// Each category that `get_categories` gives is listed once.
pub proof fn law_label_categories_unique(content: Seq<char>)
    ensures
        spec_label_categories(content) matches Ok(cats) ==> cats.no_duplicates(),
{
    if let Ok(pairs) = spec_label_pairs(content) {
        let cats = pairs.map_values(|p: (Seq<char>, Seq<char>)| p.0);
        lemma_unique_upto(cats, cats.len() as int);
    }
}

/// The categories of the list `content`, each once, in the order of their
/// first appearance among the pairs (category, emoji).
pub open spec fn spec_label_categories(content: Seq<char>) -> Result<Seq<Seq<char>>, LabelsError> {
    match spec_label_pairs(content) {
        Err(e) => Err(e),
        Ok(pairs) => {
            let cats = pairs.map_values(|p: (Seq<char>, Seq<char>)| p.0);
            Ok(unique_upto(cats, cats.len() as int))
        },
    }
}

/// The categories of the list `content`, each once, in the order of their
/// first appearance. Each set of the list must parse.
pub fn get_categories(content: &str) -> (r: Vec<String>)
    requires
        labels_well_formed(content@),
        spec_label_categories(content@) is Ok,
    ensures
        spec_label_categories(content@) == Ok::<Seq<Seq<char>>, LabelsError>(views(r@)),
{
    let pairs = parse_labels(content);
    let ghost cats = pair_views(pairs@).map_values(|p: (Seq<char>, Seq<char>)| p.0);
    let mut out: Vec<String> = Vec::new();
    let mut i: usize = 0;
    while i < pairs.len()
        invariant
            i <= pairs.len(),
            cats == pair_views(pairs@).map_values(|p: (Seq<char>, Seq<char>)| p.0),
            views(out@) == unique_upto(cats, i as int),
        decreases pairs.len() - i,
    {
        assert(cats[i as int] == pairs@[i as int].0@);
        if !contains_text(&out, &pairs[i].0) {
            let c = pairs[i].0.clone();
            assert(views(out@.push(c)) =~= views(out@).push(c@));
            out.push(c);
        }
        i = i + 1;
    }
    out
}

/// The categories of the list `content` as `get_categories` gives them, or
/// the error of the first set that does not parse.
pub fn get_categories_checked(content: &str) -> (r: Result<Vec<String>, LabelsError>)
    requires
        labels_well_formed(content@),
    ensures
        match r {
            Ok(v) => spec_label_categories(content@) == Ok::<Seq<Seq<char>>, LabelsError>(
                views(v@),
            ),
            Err(e) => spec_label_categories(content@) == Err::<Seq<Seq<char>>, LabelsError>(e),
        },
{
    match read_label_pairs(content) {
        Err(e) => Err(e),
        Ok(_) => Ok(get_categories(content)),
    }
}

/// The variation selector that makes an emoji sequence fully qualified.
pub open spec fn fe0f() -> char {
    '\u{fe0f}'
}

/// The form in which an emoji is listed: none for a component or an emoji
/// without a status; the emoji itself where it is fully qualified; with
/// U+FE0F appended where it is minimally qualified; with U+FE0F after its
/// first character where it is unqualified.
pub open spec fn spec_qualified(m: Map<Seq<char>, Status>, e: Seq<char>) -> Option<Seq<char>> {
    if !m.dom().contains(e) {
        None
    } else {
        match m[e] {
            Status::Component => None,
            Status::FullyQualified => Some(e),
            Status::MinimallyQualified => Some(e.push(fe0f())),
            Status::Unqualified => Some(seq![e[0], fe0f()] + e.drop_first()),
        }
    }
}

/// The form that `spec_qualified` gives is fully qualified in `m` (and an
/// unqualified emoji is not empty).
pub open spec fn qualified_ok(m: Map<Seq<char>, Status>, e: Seq<char>) -> bool {
    m.dom().contains(e) ==> match m[e] {
        Status::MinimallyQualified => m.dom().contains(e.push(fe0f())) && m[e.push(fe0f())]
            == Status::FullyQualified,
        Status::Unqualified => e.len() > 0 && m.dom().contains(seq![e[0], fe0f()] + e.drop_first())
            && m[seq![e[0], fe0f()] + e.drop_first()] == Status::FullyQualified,
        _ => true,
    }
}

/// The form in which an emoji is listed, according to its status in
/// `statuses`. What comes back is fully qualified in `statuses`.
pub fn qualified(statuses: &TextMap<Status>, emoji: &str) -> (r: Option<String>)
    requires
        qualified_ok(statuses@, emoji@),
    ensures
        opt_view(r) == spec_qualified(statuses@, emoji@),
        r matches Some(q) ==> statuses@.dom().contains(q@) && statuses@[q@]
            == Status::FullyQualified,
{
    match statuses.get(emoji) {
        None => None,
        Some(st) => match *st {
            Status::Component => None,
            Status::FullyQualified => Some(emoji.to_owned()),
            Status::MinimallyQualified => {
                let mut s = emoji.to_owned();
                push_char(&mut s, '\u{fe0f}');
                Some(s)
            },
            Status::Unqualified => {
                let v = chars_of(emoji);
                let mut s = String::new();
                push_char(&mut s, v[0]);
                push_char(&mut s, '\u{fe0f}');
                crate::text::push_chars(&mut s, &v, 1, v.len());
                assert(s@ =~= seq![emoji@[0], fe0f()] + emoji@.drop_first());
                Some(s)
            },
        },
    }
}

/// Whether `qualified` may be asked for `emoji`.
pub fn check_qualified(statuses: &TextMap<Status>, emoji: &str) -> (r: bool)
    ensures
        r == qualified_ok(statuses@, emoji@),
{
    match statuses.get(emoji) {
        None => true,
        Some(st) => match *st {
            Status::MinimallyQualified => {
                let mut s = emoji.to_owned();
                push_char(&mut s, '\u{fe0f}');
                match statuses.get(s.as_str()) {
                    Some(t) => *t == Status::FullyQualified,
                    None => false,
                }
            },
            Status::Unqualified => {
                let v = chars_of(emoji);
                if v.len() == 0 {
                    return false;
                }
                let mut s = String::new();
                push_char(&mut s, v[0]);
                push_char(&mut s, '\u{fe0f}');
                crate::text::push_chars(&mut s, &v, 1, v.len());
                assert(s@ =~= seq![emoji@[0], fe0f()] + emoji@.drop_first());
                match statuses.get(s.as_str()) {
                    Some(t) => *t == Status::FullyQualified,
                    None => false,
                }
            },
            _ => true,
        },
    }
}

/// Why the list of emojis could not be made.
#[derive(Clone, Copy, Debug, PartialEq, Eq, Structural)]
pub enum QualifyError {
    /// A set pattern of `labels.txt` does not parse.
    UnparsableSet,
    /// The qualified form of a listed emoji is not fully qualified.
    NotFullyQualified,
}

/// Every emoji of the pairs may be asked for its qualified form.
pub open spec fn all_qualified_ok(pairs: Seq<(Seq<char>, Seq<char>)>, m: Map<Seq<char>, Status>) -> bool {
    forall|i: int| 0 <= i < pairs.len() ==> qualified_ok(m, #[trigger] pairs[i].1)
}

/// Every emoji that the list gives is in its fully-qualified form: where
/// the qualified form of each listed emoji may be asked for, the form given
/// for each is fully qualified in the statuses.
pub proof fn law_listed_forms_fully_qualified(
    pairs: Seq<(Seq<char>, Seq<char>)>,
    m: Map<Seq<char>, Status>,
)
    requires
        all_qualified_ok(pairs, m),
    ensures
        forall|k: int|
            0 <= k < pairs.len() ==> (#[trigger] spec_qualified(m, pairs[k].1) matches Some(q)
                ==> m.dom().contains(q) && m[q] == Status::FullyQualified),
{
    assert forall|k: int| 0 <= k < pairs.len() implies (#[trigger] spec_qualified(
        m,
        pairs[k].1,
    ) matches Some(q) ==> m.dom().contains(q) && m[q] == Status::FullyQualified) by {
        assert(qualified_ok(m, pairs[k].1));
    }
}

/// The text of the emojis of the first `n` pairs, without the closing NUL
/// of the last group: each run of consecutive pairs of one category is a
/// group; each qualified emoji is followed by a NUL, and each group but the
/// last by one more NUL.
pub open spec fn qualified_body(
    pairs: Seq<(Seq<char>, Seq<char>)>,
    m: Map<Seq<char>, Status>,
    n: int,
) -> Seq<char>
    decreases n,
{
    if n <= 0 {
        seq![]
    } else {
        let sep: Seq<char> = if n >= 2 && pairs[n - 1].0 != pairs[n - 2].0 {
            seq!['\0']
        } else {
            seq![]
        };
        let item: Seq<char> = match spec_qualified(m, pairs[n - 1].1) {
            Some(q) => q.push('\0'),
            None => seq![],
        };
        qualified_body(pairs, m, n - 1) + sep + item
    }
}

/// The text of the emojis of all pairs: the body, closed by a NUL where
/// there is at least one group.
pub open spec fn qualified_text(pairs: Seq<(Seq<char>, Seq<char>)>, m: Map<Seq<char>, Status>) -> Seq<
    char,
> {
    if pairs.len() == 0 {
        seq![]
    } else {
        qualified_body(pairs, m, pairs.len() as int).push('\0')
    }
}

/// The items of the text of the first `n` pairs, each followed by a NUL in
/// that text: the qualified form of each emoji that has one, and an empty
/// item where a new group starts.
pub open spec fn qualified_items(
    pairs: Seq<(Seq<char>, Seq<char>)>,
    m: Map<Seq<char>, Status>,
    n: int,
) -> Seq<Seq<char>>
    decreases n,
{
    if n <= 0 {
        seq![]
    } else {
        let sep: Seq<Seq<char>> = if n >= 2 && pairs[n - 1].0 != pairs[n - 2].0 {
            seq![seq![]]
        } else {
            seq![]
        };
        let item: Seq<Seq<char>> = match spec_qualified(m, pairs[n - 1].1) {
            Some(q) => seq![q],
            None => seq![],
        };
        qualified_items(pairs, m, n - 1) + sep + item
    }
}

/// An item of the text is empty, or a fully-qualified emoji without NUL.
pub open spec fn item_ok(m: Map<Seq<char>, Status>, x: Seq<char>) -> bool {
    x.len() == 0 || (m.dom().contains(x) && m[x] == Status::FullyQualified && nul_free(x))
}

proof fn lemma_form_nul_free(m: Map<Seq<char>, Status>, e: Seq<char>)
    requires
        nul_free(e),
        qualified_ok(m, e),
    ensures
        spec_qualified(m, e) matches Some(q) ==> nul_free(q),
{
    if let Some(q) = spec_qualified(m, e) {
        if m[e] == Status::MinimallyQualified {
            assert forall|k: int| 0 <= k < q.len() implies q[k] != '\0' by {
                if k < e.len() {
                    assert(q[k] == e[k]);
                }
            }
        } else if m[e] == Status::Unqualified {
            assert forall|k: int| 0 <= k < q.len() implies q[k] != '\0' by {
                if k >= 2 {
                    assert(q[k] == e[k - 1]);
                }
            }
        }
    }
}

proof fn lemma_qualified_items(pairs: Seq<(Seq<char>, Seq<char>)>, m: Map<Seq<char>, Status>, n: int)
    requires
        n <= pairs.len(),
        all_qualified_ok(pairs, m),
        forall|k: int| 0 <= k < pairs.len() ==> nul_free(#[trigger] pairs[k].1),
    ensures
        qualified_body(pairs, m, n) == terminated(qualified_items(pairs, m, n)),
        forall|k: int|
            0 <= k < qualified_items(pairs, m, n).len() ==> item_ok(
                m,
                #[trigger] qualified_items(pairs, m, n)[k],
            ),
    decreases n,
{
    if n > 0 {
        lemma_qualified_items(pairs, m, n - 1);
        let prev = qualified_items(pairs, m, n - 1);
        let e = pairs[n - 1].1;
        assert(qualified_ok(m, e));
        lemma_form_nul_free(m, e);
        let with_sep: Seq<Seq<char>> = if n >= 2 && pairs[n - 1].0 != pairs[n - 2].0 {
            prev.push(seq![])
        } else {
            prev
        };
        if n >= 2 && pairs[n - 1].0 != pairs[n - 2].0 {
            lemma_terminated_push(prev, seq![]);
            assert(prev + seq![seq![]] =~= prev.push(seq![]));
            assert(terminated(prev.push(seq![])) =~= terminated(prev) + seq!['\0']);
        } else {
            assert(prev + Seq::<Seq<char>>::empty() =~= prev);
        }
        let cur = qualified_items(pairs, m, n);
        match spec_qualified(m, e) {
            Some(q) => {
                lemma_terminated_push(with_sep, q);
                assert(cur =~= with_sep.push(q));
                assert(q.push('\0') =~= q + seq!['\0']);
            },
            None => {
                assert(cur =~= with_sep);
            },
        }
        assert(qualified_body(pairs, m, n) =~= terminated(cur));
        assert forall|k: int| 0 <= k < cur.len() implies item_ok(m, #[trigger] cur[k]) by {
            if k < prev.len() {
                assert(cur[k] == prev[k]);
            } else if cur[k].len() > 0 {
                assert(cur[k] == spec_qualified(m, e)->0);
            }
        }
    }
}

/// Every item of the written list of emojis, read back by splitting on
/// NUL, is empty (a group's end) or a fully-qualified emoji, where the
/// listed emojis hold no NUL and each may be asked for its qualified form.
pub proof fn law_written_items_fully_qualified(
    pairs: Seq<(Seq<char>, Seq<char>)>,
    m: Map<Seq<char>, Status>,
)
    requires
        all_qualified_ok(pairs, m),
        forall|k: int| 0 <= k < pairs.len() ==> nul_free(#[trigger] pairs[k].1),
    ensures
        forall|k: int|
            0 <= k < split_seq(qualified_text(pairs, m), seq!['\0']).len() ==> {
                let x = #[trigger] split_seq(qualified_text(pairs, m), seq!['\0'])[k];
                x.len() > 0 ==> m.dom().contains(x) && m[x] == Status::FullyQualified
            },
{
    let n = pairs.len() as int;
    lemma_qualified_items(pairs, m, n);
    let items = qualified_items(pairs, m, n);
    let all: Seq<Seq<char>> = if n == 0 {
        seq![]
    } else {
        items.push(seq![])
    };
    if n > 0 {
        lemma_terminated_push(items, seq![]);
        assert(qualified_text(pairs, m) =~= terminated(all));
    } else {
        assert(qualified_text(pairs, m) =~= terminated(all));
    }
    assert forall|k: int| 0 <= k < all.len() implies item_ok(m, #[trigger] all[k]) by {
        if k < items.len() {
            assert(all[k] == items[k]);
        }
    }
    assert forall|k: int| 0 <= k < all.len() implies nul_free(#[trigger] all[k]) by {
        assert(item_ok(m, all[k]));
    }
    law_list_read_back(all);
    let sp = split_seq(qualified_text(pairs, m), seq!['\0']);
    assert forall|k: int| 0 <= k < sp.len() implies {
        let x = #[trigger] sp[k];
        x.len() > 0 ==> m.dom().contains(x) && m[x] == Status::FullyQualified
    } by {
        if k < all.len() {
            assert(sp[k] == all[k]);
            assert(item_ok(m, all[k]));
        } else {
            assert(sp[k] == Seq::<char>::empty());
        }
    }
}

/// The emojis of the list `labels` grouped by category in their qualified
/// forms, or why they cannot be listed.
fn qualify_all(labels: &str, statuses: &TextMap<Status>) -> (r: Result<
    String,
    QualifyError,
>)
    requires
        labels_well_formed(labels@),
    ensures
        match spec_label_pairs(labels@) {
            Err(_) => r == Err::<String, QualifyError>(QualifyError::UnparsableSet),
            Ok(pairs) => match r {
                Ok(s) => s@ == qualified_text(pairs, statuses@) && all_qualified_ok(
                    pairs,
                    statuses@,
                ),
                Err(e) => e == QualifyError::NotFullyQualified && !all_qualified_ok(
                    pairs,
                    statuses@,
                ),
            },
        },
{
    let pairs = match read_label_pairs(labels) {
        Ok(p) => p,
        Err(_) => return Err(QualifyError::UnparsableSet),
    };
    let ghost ps = pair_views(pairs@);
    let mut out = String::new();
    let mut i: usize = 0;
    while i < pairs.len()
        invariant
            i <= pairs.len(),
            ps == pair_views(pairs@),
            spec_label_pairs(labels@) == Ok::<Seq<(Seq<char>, Seq<char>)>, LabelsError>(ps),
            out@ == qualified_body(ps, statuses@, i as int),
            forall|j: int| 0 <= j < i ==> qualified_ok(statuses@, #[trigger] ps[j].1),
        decreases pairs.len() - i,
    {
        assert(ps[i as int] == (pairs@[i as int].0@, pairs@[i as int].1@));
        let ghost o0 = out@;
        if i >= 1 && pairs[i].0 != pairs[i - 1].0 {
            assert(ps[i - 1] == (pairs@[i - 1].0@, pairs@[i - 1].1@));
            push_char(&mut out, '\0');
        }
        let ghost o1 = out@;
        if !check_qualified(statuses, pairs[i].1.as_str()) {
            assert(!qualified_ok(statuses@, ps[i as int].1));
            return Err(QualifyError::NotFullyQualified);
        }
        match qualified(statuses, pairs[i].1.as_str()) {
            Some(q) => {
                out.append(q.as_str());
                push_char(&mut out, '\0');
                assert(out@ =~= o1 + q@.push('\0'));
            },
            None => {
                assert(out@ =~= o1 + Seq::<char>::empty());
            },
        }
        proof {
            if i >= 1 {
                assert(ps[i as int].0 == pairs@[i as int].0@);
            }
        }
        i = i + 1;
    }
    if pairs.len() > 0 {
        push_char(&mut out, '\0');
    }
    Ok(out)
}

/// The emojis of the list `labels` (the text of `labels.txt`) grouped by
/// category, each in the form that `statuses` makes fully qualified. Each
/// set of the list must parse, and the form given for each listed emoji be
/// fully qualified.
pub fn all_emojis_qualified(labels: &str, statuses: &TextMap<Status>) -> (r: String)
    requires
        labels_well_formed(labels@),
        spec_label_pairs(labels@) is Ok,
        all_qualified_ok(spec_label_pairs(labels@)->Ok_0, statuses@),
    ensures
        r@ == qualified_text(spec_label_pairs(labels@)->Ok_0, statuses@),
{
    match qualify_all(labels, statuses) {
        Ok(s) => s,
        Err(_) => {
            assert(false);
            String::new()
        },
    }
}

/// The emojis of the list `labels` as `all_emojis_qualified` lists them,
/// or why they cannot be: a set that does not parse, or a listed emoji
/// whose qualified form is not fully qualified.
pub fn all_emojis_qualified_checked(labels: &str, statuses: &TextMap<Status>) -> (r: Result<
    String,
    QualifyError,
>)
    requires
        labels_well_formed(labels@),
    ensures
        match spec_label_pairs(labels@) {
            Err(_) => r == Err::<String, QualifyError>(QualifyError::UnparsableSet),
            Ok(pairs) => match r {
                Ok(s) => s@ == qualified_text(pairs, statuses@) && all_qualified_ok(
                    pairs,
                    statuses@,
                ),
                Err(e) => e == QualifyError::NotFullyQualified && !all_qualified_ok(
                    pairs,
                    statuses@,
                ),
            },
        },
{
    match qualify_all(labels, statuses) {
        Err(e) => Err(e),
        Ok(_) => Ok(all_emojis_qualified(labels, statuses)),
    }
}

} // verus!
