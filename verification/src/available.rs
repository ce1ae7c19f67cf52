//! The tables generated from the CLDR data, as read at run time.
//!
//! `available` lists the language codes, each followed by a NUL character.
//! A translation table holds one block per language of `available`, in the
//! same order; each block holds one entry per listed item, entries
//! separated by one NUL character and blocks by two. In a block an entry of
//! U+001A (substitute) means "take the parent language's entry" and one of
//! U+0018 (cancel) means "no translation".
use vstd::prelude::*;
use crate::codec::{encode_table, law_list_read_back, law_table_read_back, nul_free, plain_entries, terminated};
use crate::text::{before_char, chars_of, find_from, occurs_at, split_on, split_on_double, split_seq, views, substring};

verus! {

/// The models of a list of pairs of strings.
pub open spec fn pair_views(v: Seq<(String, String)>) -> Seq<(Seq<char>, Seq<char>)> {
    v.map_values(|p: (String, String)| (p.0@, p.1@))
}

/// The parent language of a locale code: the part before the first `_`.
pub open spec fn parent_lang(lang: Seq<char>) -> Seq<char> {
    before_char(lang, '_')
}

/// The last position of `x` in `items`.
pub open spec fn last_index(items: Seq<Seq<char>>, x: Seq<char>) -> Option<int>
    decreases items.len(),
{
    if items.len() == 0 {
        None
    } else if items.last() == x {
        Some(items.len() - 1)
    } else {
        last_index(items.drop_last(), x)
    }
}

/// The positions of a language and of its parent in the list of languages,
/// or the message that says which one is missing.
pub open spec fn spec_lang_parent(lang: Seq<char>, available: Seq<char>) -> Result<
    (int, int),
    Seq<char>,
> {
    let items = split_seq(available, seq!['\0']);
    match last_index(items, lang) {
        None => Err(lang + " not found"@),
        Some(i) => match last_index(items, parent_lang(lang)) {
            None => Err(parent_lang(lang) + " not found"@),
            Some(j) => Ok((i, j)),
        },
    }
}

/// The substitute mark: "take the parent's entry".
pub open spec fn substitute_mark() -> Seq<char> {
    seq!['\u{1a}']
}

/// The cancel mark: "no translation".
pub open spec fn none_mark() -> Seq<char> {
    seq!['\u{18}']
}

/// The translation of one entry, falling back to the parent's entry.
pub open spec fn pick(tr: Seq<char>, par: Seq<char>) -> Seq<char> {
    if tr != substitute_mark() {
        tr
    } else {
        par
    }
}

/// The pairs (item, translation) of the first `n` entries, without those
/// that have no translation.
pub open spec fn translated_upto(
    items: Seq<Seq<char>>,
    trs: Seq<Seq<char>>,
    pars: Seq<Seq<char>>,
    n: int,
) -> Seq<(Seq<char>, Seq<char>)>
    decreases n,
{
    if n <= 0 {
        seq![]
    } else {
        let prev = translated_upto(items, trs, pars, n - 1);
        let t = pick(trs[n - 1], pars[n - 1]);
        if t == none_mark() {
            prev
        } else {
            prev.push((items[n - 1], t))
        }
    }
}

pub open spec fn min3(a: int, b: int, c: int) -> int {
    if a <= b && a <= c {
        a
    } else if b <= c {
        b
    } else {
        c
    }
}

/// What `language_translations` returns: the names of all listed languages
/// in the language `lang`, or the message that says what is missing.
pub open spec fn spec_language_translations(
    lang: Seq<char>,
    available: Seq<char>,
    translations: Seq<char>,
) -> Result<Seq<(Seq<char>, Seq<char>)>, Seq<char>> {
    match spec_lang_parent(lang, available) {
        Err(e) => Err(e),
        Ok((i, j)) => {
            let rows = split_seq(translations, seq!['\0', '\0']);
            if i >= rows.len() {
                Err(lang + " not in translations"@)
            } else if j >= rows.len() {
                Err(parent_lang(lang) + " not in translations"@)
            } else {
                let items = split_seq(available, seq!['\0']);
                let trs = split_seq(rows[i], seq!['\0']);
                let pars = split_seq(rows[j], seq!['\0']);
                Ok(
                    translated_upto(
                        items,
                        trs,
                        pars,
                        min3(items.len() as int, trs.len() as int, pars.len() as int),
                    ),
                )
            }
        },
    }
}

/// The pairs of the first `n` entries of two lists.
pub open spec fn zip_upto(a: Seq<Seq<char>>, b: Seq<Seq<char>>, n: int) -> Seq<
    (Seq<char>, Seq<char>),
> {
    Seq::new(n as nat, |k: int| (a[k], b[k]))
}

/// What `categories` returns: the names of the categories in the language
/// `lang`, or the message that says what is missing.
pub open spec fn spec_categories(
    lang: Seq<char>,
    available: Seq<char>,
    categories_available: Seq<char>,
    categories_translations: Seq<char>,
) -> Result<Seq<(Seq<char>, Seq<char>)>, Seq<char>> {
    match spec_lang_parent(lang, available) {
        Err(e) => Err(e),
        Ok((i, _j)) => {
            let rows = split_seq(categories_translations, seq!['\0', '\0']);
            if i >= rows.len() {
                Err(lang + " not in translations"@)
            } else {
                let items = split_seq(categories_available, seq!['\0']);
                let trs = split_seq(rows[i], seq!['\0']);
                let n = if items.len() <= trs.len() {
                    items.len() as int
                } else {
                    trs.len() as int
                };
                Ok(zip_upto(items, trs, n))
            }
        },
    }
}

/// The language codes of the list `available`.
pub fn locales(available: &str) -> (r: Vec<String>)
    ensures
        views(r@) == split_seq(available@, seq!['\0']),
{
    let chars = chars_of(available);
    split_on(&chars, '\0')
}

/// The parent language of a locale code.
pub fn parent_of(lang: &str) -> (r: String)
    ensures
        r@ == parent_lang(lang@),
{
    let chars = chars_of(lang);
    let parts = split_on(&chars, '_');
    proof {
        crate::text::lemma_split_nonempty(chars@, seq!['_']);
        assert(views(parts@)[0] == parts@[0]@);
    }
    parts[0].clone()
}

/// `text` followed by `suffix`.
fn with_suffix(text: &str, suffix: &str) -> (r: String)
    ensures
        r@ == text@ + suffix@,
{
    let mut m = text.to_owned();
    m.append(suffix);
    m
}

/// The last position of `x` in `items`.
fn find_last(items: &Vec<String>, x: &String) -> (r: Option<usize>)
    ensures
        match r {
            Some(i) => last_index(views(items@), x@) == Some(i as int),
            None => last_index(views(items@), x@) is None,
        },
{
    let mut found: Option<usize> = None;
    let mut i: usize = 0;
    while i < items.len()
        invariant
            i <= items.len(),
            match found {
                Some(k) => last_index(views(items@).take(i as int), x@) == Some(k as int),
                None => last_index(views(items@).take(i as int), x@) is None,
            },
        decreases items.len() - i,
    {
        proof {
            assert(views(items@).take(i + 1).drop_last() =~= views(items@).take(i as int));
            assert(views(items@).take(i + 1).last() == items@[i as int]@);
        }
        if items[i] == *x {
            found = Some(i);
        }
        i = i + 1;
    }
    assert(views(items@).take(items.len() as int) =~= views(items@));
    found
}

/// The positions of the language `lang` and of its parent in `available`.
pub fn lang_parent(lang: &str, available: &str) -> (r: Result<(usize, usize), String>)
    ensures
        match r {
            Ok((i, j)) => spec_lang_parent(lang@, available@) == Ok::<(int, int), Seq<char>>(
                (i as int, j as int),
            ),
            Err(e) => spec_lang_parent(lang@, available@) == Err::<(int, int), Seq<char>>(e@),
        },
{
    let parent = parent_of(lang);
    let items = locales(available);
    let l = lang.to_owned();
    let idx = find_last(&items, &l);
    let idx_parent = find_last(&items, &parent);
    match idx {
        None => Err(with_suffix(lang, " not found")),
        Some(i) => match idx_parent {
            None => Err(with_suffix(parent.as_str(), " not found")),
            Some(j) => Ok((i, j)),
        },
    }
}

fn is_mark(s: &String, mark: char) -> (r: bool)
    ensures
        r == (s@ == seq![mark]),
{
    let v = chars_of(s.as_str());
    let r = v.len() == 1 && v[0] == mark;
    proof {
        if r {
            assert(v@ =~= seq![mark]);
        }
    }
    r
}

/// The pairs (item, translation) of the first `n` entries, without those
/// that have no translation.
fn translated(items: &Vec<String>, trs: &Vec<String>, pars: &Vec<String>, n: usize) -> (r: Vec<
    (String, String),
>)
    requires
        n <= items.len(),
        n <= trs.len(),
        n <= pars.len(),
    ensures
        pair_views(r@) == translated_upto(views(items@), views(trs@), views(pars@), n as int),
{
    let mut out: Vec<(String, String)> = Vec::new();
    let mut i: usize = 0;
    while i < n
        invariant
            i <= n <= items.len(),
            n <= trs.len(),
            n <= pars.len(),
            pair_views(out@) == translated_upto(views(items@), views(trs@), views(pars@), i as int),
        decreases n - i,
    {
        let t = if !is_mark(&trs[i], '\u{1a}') {
            trs[i].clone()
        } else {
            pars[i].clone()
        };
        if !is_mark(&t, '\u{18}') {
            let p = (items[i].clone(), t);
            assert(pair_views(out@.push(p)) =~= pair_views(out@).push((p.0@, p.1@)));
            out.push(p);
        }
        i = i + 1;
    }
    out
}

/// The names of all listed languages in the language `lang`: each listed
/// code with its translation, or its parent language's translation where
/// the block marks it so, leaving out the codes with no translation.
pub fn language_translations(lang: &str, available: &str, translations: &str) -> (r: Result<
    Vec<(String, String)>,
    String,
>)
    ensures
        match r {
            Ok(v) => spec_language_translations(lang@, available@, translations@) == Ok::<
                Seq<(Seq<char>, Seq<char>)>,
                Seq<char>,
            >(pair_views(v@)),
            Err(e) => spec_language_translations(lang@, available@, translations@) == Err::<
                Seq<(Seq<char>, Seq<char>)>,
                Seq<char>,
            >(e@),
        },
{
    let parent = parent_of(lang);
    let (idx, idx_parent) = match lang_parent(lang, available) {
        Ok(p) => p,
        Err(e) => return Err(e),
    };
    let tchars = chars_of(translations);
    let rows = split_on_double(&tchars, '\0');
    if idx >= rows.len() {
        return Err(with_suffix(lang, " not in translations"));
    }
    if idx_parent >= rows.len() {
        return Err(with_suffix(parent.as_str(), " not in translations"));
    }
    let items = locales(available);
    let trs = split_on(&chars_of(rows[idx].as_str()), '\0');
    let pars = split_on(&chars_of(rows[idx_parent].as_str()), '\0');
    let mut n = items.len();
    if trs.len() < n {
        n = trs.len();
    }
    if pars.len() < n {
        n = pars.len();
    }
    assert(views(rows@)[idx as int] == rows@[idx as int]@);
    assert(views(rows@)[idx_parent as int] == rows@[idx_parent as int]@);
    Ok(translated(&items, &trs, &pars, n))
}

/// The names of the categories in the language `lang`, paired with the
/// category codes of `categories_available`.
pub fn categories(
    lang: &str,
    available: &str,
    categories_available: &str,
    categories_translations: &str,
) -> (r: Result<Vec<(String, String)>, String>)
    ensures
        match r {
            Ok(v) => spec_categories(
                lang@,
                available@,
                categories_available@,
                categories_translations@,
            ) == Ok::<Seq<(Seq<char>, Seq<char>)>, Seq<char>>(pair_views(v@)),
            Err(e) => spec_categories(
                lang@,
                available@,
                categories_available@,
                categories_translations@,
            ) == Err::<Seq<(Seq<char>, Seq<char>)>, Seq<char>>(e@),
        },
{
    let (idx, _idx_parent) = match lang_parent(lang, available) {
        Ok(p) => p,
        Err(e) => return Err(e),
    };
    let tchars = chars_of(categories_translations);
    let rows = split_on_double(&tchars, '\0');
    if idx >= rows.len() {
        return Err(with_suffix(lang, " not in translations"));
    }
    let items = split_on(&chars_of(categories_available), '\0');
    let trs = split_on(&chars_of(rows[idx].as_str()), '\0');
    assert(views(rows@)[idx as int] == rows@[idx as int]@);
    let n = if items.len() <= trs.len() {
        items.len()
    } else {
        trs.len()
    };
    let mut out: Vec<(String, String)> = Vec::new();
    let mut i: usize = 0;
    while i < n
        invariant
            i <= n <= items.len(),
            n <= trs.len(),
            pair_views(out@) == zip_upto(views(items@), views(trs@), i as int),
        decreases n - i,
    {
        let p = (items[i].clone(), trs[i].clone());
        assert(views(items@)[i as int] == items@[i as int]@);
        assert(views(trs@)[i as int] == trs@[i as int]@);
        assert(pair_views(out@.push(p)) =~= pair_views(out@).push((p.0@, p.1@)));
        assert(zip_upto(views(items@), views(trs@), i + 1) =~= zip_upto(
            views(items@),
            views(trs@),
            i as int,
        ).push((p.0@, p.1@)));
        out.push(p);
        i = i + 1;
    }
    Ok(out)
}

proof fn lemma_last_index(items: Seq<Seq<char>>, x: Seq<char>)
    ensures
        last_index(items, x) matches Some(i) ==> 0 <= i < items.len() && items[i] == x,
    decreases items.len(),
{
    if items.len() > 0 && items.last() != x {
        lemma_last_index(items.drop_last(), x);
    }
}

/// A code that neither is empty nor starts with `_` has a non-empty parent.
proof fn lemma_parent_nonempty(lang: Seq<char>)
    requires
        lang.len() > 0,
        lang[0] != '_',
    ensures
        parent_lang(lang).len() > 0,
{
    let pat = seq!['_'];
    crate::text::lemma_find_from_bounds(lang, pat, 0);
    if occurs_at(lang, pat, 0) {
        assert(lang.subrange(0, 1)[0] == lang[0]);
    }
    match find_from(lang, pat, 0) {
        None => {
            assert(lang.subrange(0, lang.len() as int) =~= lang);
        },
        Some(i) => {},
    }
}

proof fn lemma_translated_prefix(
    a: Seq<Seq<char>>,
    b: Seq<Seq<char>>,
    trs: Seq<Seq<char>>,
    pars: Seq<Seq<char>>,
    n: int,
)
    requires
        n <= a.len(),
        n <= b.len(),
        forall|k: int| 0 <= k < n ==> a[k] == b[k],
    ensures
        translated_upto(a, trs, pars, n) == translated_upto(b, trs, pars, n),
    decreases n,
{
    if n > 0 {
        lemma_translated_prefix(a, b, trs, pars, n - 1);
    }
}

/// What the generator writes is what `language_translations` reads: with
/// the list of codes `langs` and the table whose row `i` holds the names
/// of all codes in the language `langs[i]`, the names read for a listed
/// code are the entries of its row, those marked "take the parent's" taken
/// from its parent language's row, those marked "none" left out.
pub proof fn law_translations_read_back(lang: Seq<char>, langs: Seq<Seq<char>>, rows: Seq<Seq<Seq<char>>>)
    requires
        lang.len() > 0,
        lang[0] != '_',
        forall|i: int| 0 <= i < langs.len() ==> nul_free(#[trigger] langs[i]),
        langs.len() >= 1,
        rows.len() == langs.len(),
        forall|i: int|
            0 <= i < rows.len() ==> (#[trigger] rows[i]).len() == langs.len() && plain_entries(
                rows[i],
            ),
    ensures
        spec_language_translations(lang, terminated(langs), encode_table(rows)) == match spec_lang_parent(
            lang,
            terminated(langs),
        ) {
            Err(e) => Err(e),
            Ok((i, j)) => Ok(translated_upto(langs, rows[i], rows[j], langs.len() as int)),
        },
{
    let n = langs.len() as int;
    law_list_read_back(langs);
    law_table_read_back(rows);
    let items = split_seq(terminated(langs), seq!['\0']);
    assert(items == langs.push(seq![]));
    lemma_last_index(items, lang);
    lemma_parent_nonempty(lang);
    lemma_last_index(items, parent_lang(lang));
    match spec_lang_parent(lang, terminated(langs)) {
        Err(e) => {},
        Ok((i, j)) => {
            assert(i < n) by {
                if i == n {
                    assert(items[n] == Seq::<char>::empty());
                }
            }
            assert(j < n) by {
                if j == n {
                    assert(items[n] == Seq::<char>::empty());
                }
            }
            let split_rows = split_seq(encode_table(rows), seq!['\0', '\0']);
            assert(split_rows[i] == crate::text::join_seq(rows[i], seq!['\0']));
            assert(split_rows[j] == crate::text::join_seq(rows[j], seq!['\0']));
            assert(min3(items.len() as int, rows[i].len() as int, rows[j].len() as int) == n);
            lemma_translated_prefix(items, langs, rows[i], rows[j], n);
        },
    }
}

/// What the generator writes is what `categories` reads: with the list of
/// codes `langs`, the list of categories `cats`, and the table whose row
/// `i` holds the names of the categories in the language `langs[i]`, the
/// names read for a listed code are the entries of its row, paired with
/// the categories.
pub proof fn law_categories_read_back(
    lang: Seq<char>,
    langs: Seq<Seq<char>>,
    cats: Seq<Seq<char>>,
    rows: Seq<Seq<Seq<char>>>,
)
    requires
        lang.len() > 0,
        lang[0] != '_',
        forall|i: int| 0 <= i < langs.len() ==> nul_free(#[trigger] langs[i]),
        forall|i: int| 0 <= i < cats.len() ==> nul_free(#[trigger] cats[i]),
        cats.len() >= 1,
        rows.len() == langs.len(),
        forall|i: int|
            0 <= i < rows.len() ==> (#[trigger] rows[i]).len() == cats.len() && plain_entries(
                rows[i],
            ),
    ensures
        spec_categories(lang, terminated(langs), terminated(cats), encode_table(rows)) == match spec_lang_parent(
            lang,
            terminated(langs),
        ) {
            Err(e) => Err(e),
            Ok((i, j)) => Ok(zip_upto(cats, rows[i], cats.len() as int)),
        },
{
    let n = langs.len() as int;
    law_list_read_back(langs);
    law_list_read_back(cats);
    law_table_read_back(rows);
    let items = split_seq(terminated(langs), seq!['\0']);
    lemma_last_index(items, lang);
    match spec_lang_parent(lang, terminated(langs)) {
        Err(e) => {},
        Ok((i, j)) => {
            assert(i < n) by {
                if i == n {
                    assert(items[n] == Seq::<char>::empty());
                }
            }
            let split_rows = split_seq(encode_table(rows), seq!['\0', '\0']);
            assert(split_rows[i] == crate::text::join_seq(rows[i], seq!['\0']));
            let citems = split_seq(terminated(cats), seq!['\0']);
            assert(zip_upto(citems, rows[i], cats.len() as int) =~= zip_upto(
                cats,
                rows[i],
                cats.len() as int,
            ));
        },
    }
}

proof fn lemma_translated_no_cancel(
    items: Seq<Seq<char>>,
    trs: Seq<Seq<char>>,
    pars: Seq<Seq<char>>,
    n: int,
)
    ensures
        forall|k: int|
            0 <= k < translated_upto(items, trs, pars, n).len() ==> (#[trigger] translated_upto(
                items,
                trs,
                pars,
                n,
            )[k]).1 != none_mark(),
    decreases n,
{
    if n > 0 {
        lemma_translated_no_cancel(items, trs, pars, n - 1);
        let prev = translated_upto(items, trs, pars, n - 1);
        let cur = translated_upto(items, trs, pars, n);
        assert forall|k: int| 0 <= k < cur.len() implies (#[trigger] cur[k]).1 != none_mark() by {
            if k < prev.len() {
                assert(cur[k] == prev[k]);
            }
        }
    }
}

/// No name that `language_translations` gives is the "no translation"
/// mark: such entries are left out.
pub proof fn law_no_cancel_in_names(lang: Seq<char>, available: Seq<char>, translations: Seq<char>)
    ensures
        spec_language_translations(lang, available, translations) matches Ok(v) ==> forall|k: int|
            0 <= k < v.len() ==> (#[trigger] v[k]).1 != none_mark(),
{
    match spec_lang_parent(lang, available) {
        Err(_) => {},
        Ok((i, j)) => {
            let rows = split_seq(translations, seq!['\0', '\0']);
            if i < rows.len() && j < rows.len() {
                let items = split_seq(available, seq!['\0']);
                let trs = split_seq(rows[i], seq!['\0']);
                let pars = split_seq(rows[j], seq!['\0']);
                lemma_translated_no_cancel(
                    items,
                    trs,
                    pars,
                    min3(items.len() as int, trs.len() as int, pars.len() as int),
                );
            }
        },
    }
}

} // verus!
