//! What the generator writes: the list of languages and the table of the
//! name of each language in each language, in the format of `codec`; and
//! the table of the names of the emoji categories in each language.
use vstd::prelude::*;
use crate::build::ldml::{Ldml, LdmlModel};
use crate::build::tables::{
    is_upper, ldmls_model, spec_locale_format, translation_text, try_locale_format, usable,
    usable_value,
};
use crate::available::{law_translations_read_back, spec_lang_parent, spec_language_translations, translated_upto};
use crate::codec::{
    encode_table, lemma_encode_table_push, lemma_terminated_push, nul_free, plain_entries, terminated,
};
use crate::collect::upper_mark;
use crate::table::TextMap;
use crate::text::{chars_of, has_char, opt_view, push_char, same_text, views};
use crate::build::ldml::{parse_ldml_checked, spec_ldml};
use crate::charlabels::{parse_charlabels, parse_charlabels_checked};
use crate::collect::{charlabel_path, spec_path_values_doc, string_map};
use crate::text::{lower_ascii_seq, lower_ascii_string, replace_all, replace_seq};
use crate::xml::{XmlError, XmlEvent};

verus! {

/// The locale whose names a language falls back on: its parent language
/// for a code with `_` (`None` where that code has no locale file), else
/// the root locale.
pub open spec fn table_parent(m: Map<Seq<char>, LdmlModel>, baselang: Seq<char>) -> Option<
    Seq<char>,
> {
    if baselang.contains('_') {
        if m.dom().contains(baselang) {
            Some(m[baselang].language)
        } else {
            None
        }
    } else {
        Some("root"@)
    }
}

/// The composed name, as a table entry.
pub open spec fn formatted_entry(m: Map<Seq<char>, LdmlModel>, baselang: Seq<char>, lang: Seq<char>) -> Option<
    Seq<char>,
> {
    match spec_locale_format(m, baselang, lang) {
        Some(t) => Some(translation_text(t)),
        None => None,
    }
}

/// The table entry for the name of `lang` in `baselang`: the name that
/// `baselang`'s file gives; where it defers (`↑↑↑`) or is silent, the mark
/// "take the parent's" if the parent's file names `lang` (unless the parent
/// is the root locale and defers too), else the composed name. `None` where
/// a file that must be consulted is missing.
pub open spec fn spec_single(
    m: Map<Seq<char>, LdmlModel>,
    baselang: Seq<char>,
    lang: Seq<char>,
    parent: Seq<char>,
) -> Option<Seq<char>> {
    if !m.dom().contains(baselang) {
        None
    } else if usable(m[baselang].languages.get(lang)) {
        Some(m[baselang].languages[lang])
    } else if !m.dom().contains(parent) {
        None
    } else {
        match m[parent].languages.get(lang) {
            Some(pt) => if parent == "root"@ && pt == upper_mark() {
                formatted_entry(m, baselang, lang)
            } else {
                Some(seq!['\u{1a}'])
            },
            None => formatted_entry(m, baselang, lang),
        }
    }
}

fn copied(v: Option<&String>) -> (r: Option<String>)
    ensures
        opt_view(r) == match v {
            Some(s) => Some(s@),
            None => None::<Seq<char>>,
        },
{
    match v {
        Some(s) => Some(s.clone()),
        None => None,
    }
}

/// The table entry for the name of `lang` in `baselang`, whose parent
/// locale is `parent`, or `None` where a file or value that must be
/// consulted is missing.
fn try_single(ldmls: &TextMap<Ldml>, baselang: &str, lang: &str, parent: &str) -> (r: Option<
    String,
>)
    ensures
        spec_single(ldmls_model(ldmls@), baselang@, lang@, parent@) == opt_view(r),
{
    let ghost m = ldmls_model(ldmls@);
    let base = match ldmls.get(baselang) {
        Some(b) => b,
        None => return None,
    };
    assert(m[baselang@] == base.model());
    if let Some(t) = usable_value(copied(base.languages.get(lang))) {
        return Some(t);
    }
    let par = match ldmls.get(parent) {
        Some(p) => p,
        None => return None,
    };
    assert(m[parent@] == par.model());
    proof {
        reveal_strlit("root");
    }
    let composed = match par.languages.get(lang) {
        Some(pt) => {
            if same_text(parent, "root") && is_upper(pt) {
                true
            } else {
                false
            }
        },
        None => true,
    };
    if composed {
        match try_locale_format(baselang, lang, ldmls) {
            Some(t) => Some(t.into_string()),
            None => None,
        }
    } else {
        let mut s = String::new();
        push_char(&mut s, '\u{1a}');
        Some(s)
    }
}

/// The table entry for the name of `lang` in `baselang`, whose parent
/// locale is `parent`.
pub fn single_locale_translation(ldmls: &TextMap<Ldml>, baselang: &str, lang: &str, parent: &str) -> (r:
    String)
    requires
        spec_single(ldmls_model(ldmls@), baselang@, lang@, parent@) is Some,
    ensures
        spec_single(ldmls_model(ldmls@), baselang@, lang@, parent@) == Some(r@),
{
    try_single(ldmls, baselang, lang, parent).unwrap()
}

/// Every entry of the table of names can be made: each language's parent
/// locale has a file, and each entry's files and values are there.
pub open spec fn names_defined(m: Map<Seq<char>, LdmlModel>, langs: Seq<Seq<char>>) -> bool {
    &&& forall|i: int|
        0 <= i < langs.len() ==> (#[trigger] table_parent(m, langs[i])) is Some && m.dom().contains(
            table_parent(m, langs[i])->0,
        )
    &&& forall|i: int, j: int|
        0 <= i < langs.len() && 0 <= j < langs.len() ==> (#[trigger] spec_single(
            m,
            langs[i],
            langs[j],
            table_parent(m, langs[i])->0,
        )) is Some
}

/// The table of names: row `i` holds the entry of each language in the
/// language `langs[i]`.
pub open spec fn name_rows(m: Map<Seq<char>, LdmlModel>, langs: Seq<Seq<char>>) -> Seq<
    Seq<Seq<char>>,
> {
    Seq::new(
        langs.len(),
        |i: int|
            Seq::new(
                langs.len(),
                |j: int| spec_single(m, langs[i], langs[j], table_parent(m, langs[i])->0)->0,
            ),
    )
}

/// The parent locale of a language in the table of names.
fn parent_locale(ldmls: &TextMap<Ldml>, baselang: &String) -> (r: String)
    requires
        table_parent(ldmls_model(ldmls@), baselang@) is Some,
    ensures
        table_parent(ldmls_model(ldmls@), baselang@) == Some(r@),
{
    proof {
        reveal_strlit("root");
    }
    if has_char(&chars_of(baselang.as_str()), '_') {
        let b = ldmls.get(baselang.as_str()).unwrap();
        assert(ldmls_model(ldmls@)[baselang@] == b.model());
        b.identity.language.clone()
    } else {
        "root".to_owned()
    }
}

/// The parent locale of a language, or `None` where the language is a
/// locale code without a file.
fn try_parent_locale(ldmls: &TextMap<Ldml>, baselang: &String) -> (r: Option<String>)
    ensures
        table_parent(ldmls_model(ldmls@), baselang@) == opt_view(r),
{
    proof {
        reveal_strlit("root");
    }
    if has_char(&chars_of(baselang.as_str()), '_') {
        match ldmls.get(baselang.as_str()) {
            Some(b) => {
                assert(ldmls_model(ldmls@)[baselang@] == b.model());
                Some(b.identity.language.clone())
            },
            None => None,
        }
    } else {
        Some("root".to_owned())
    }
}

/// Whether every entry of the table of names can be made, as
/// `all_languages_names` requires.
pub fn names_table_ok(langs: &Vec<String>, ldmls: &TextMap<Ldml>) -> (r: bool)
    ensures
        r == names_defined(ldmls_model(ldmls@), views(langs@)),
{
    let ghost m = ldmls_model(ldmls@);
    let ghost ls = views(langs@);
    let n = langs.len();
    let mut i: usize = 0;
    while i < n
        invariant
            n == langs.len(),
            i <= n,
            m == ldmls_model(ldmls@),
            ls == views(langs@),
            forall|a: int|
                0 <= a < i ==> (#[trigger] table_parent(m, ls[a])) is Some && m.dom().contains(
                    table_parent(m, ls[a])->0,
                ),
            forall|a: int, b: int|
                0 <= a < i && 0 <= b < n ==> (#[trigger] spec_single(
                    m,
                    ls[a],
                    ls[b],
                    table_parent(m, ls[a])->0,
                )) is Some,
        decreases n - i,
    {
        assert(ls[i as int] == langs@[i as int]@);
        let parent = match try_parent_locale(ldmls, &langs[i]) {
            Some(p) => p,
            None => return false,
        };
        if !ldmls.contains_key(parent.as_str()) {
            return false;
        }
        let mut j: usize = 0;
        while j < n
            invariant
                n == langs.len(),
                i < n,
                j <= n,
                m == ldmls_model(ldmls@),
                ls == views(langs@),
                ls[i as int] == langs@[i as int]@,
                table_parent(m, ls[i as int]) == Some(parent@),
                forall|b: int|
                    0 <= b < j ==> (#[trigger] spec_single(m, ls[i as int], ls[b], parent@)) is Some,
            decreases n - j,
        {
            assert(ls[j as int] == langs@[j as int]@);
            if try_single(ldmls, langs[i].as_str(), langs[j].as_str(), parent.as_str()).is_none() {
                return false;
            }
            j = j + 1;
        }
        proof {
            assert forall|a: int, b: int|
                0 <= a < i + 1 && 0 <= b < n implies (#[trigger] spec_single(
                m,
                ls[a],
                ls[b],
                table_parent(m, ls[a])->0,
            )) is Some by {
                if a == i {
                    assert(spec_single(m, ls[i as int], ls[b], parent@) is Some);
                }
            }
        }
        i = i + 1;
    }
    true
}

/// The table of the name of each language in each language, written in
/// the format of `codec`: one row per language of `langs`, in order.
pub fn all_languages_names(langs: &Vec<String>, ldmls: &TextMap<Ldml>) -> (r: String)
    requires
        names_defined(ldmls_model(ldmls@), views(langs@)),
    ensures
        r@ == encode_table(name_rows(ldmls_model(ldmls@), views(langs@))),
{
    let ghost m = ldmls_model(ldmls@);
    let ghost ls = views(langs@);
    let ghost rows = name_rows(m, ls);
    let n = langs.len();
    let mut out = String::new();
    let mut i: usize = 0;
    while i < n
        invariant
            n == langs.len(),
            i <= n,
            m == ldmls_model(ldmls@),
            ls == views(langs@),
            rows == name_rows(m, ls),
            names_defined(m, ls),
            out@ == encode_table(rows.take(i as int)),
        decreases n - i,
    {
        let baselang = &langs[i];
        assert(ls[i as int] == baselang@);
        assert(table_parent(m, ls[i as int]) is Some);
        let parent = parent_locale(ldmls, baselang);
        assert(m.dom().contains(parent@));
        let mut j: usize = 0;
        while j < n
            invariant
                n == langs.len(),
                i < n,
                j <= n,
                m == ldmls_model(ldmls@),
                ls == views(langs@),
                rows == name_rows(m, ls),
                names_defined(m, ls),
                baselang@ == ls[i as int],
                table_parent(m, ls[i as int]) == Some(parent@),
                out@ == encode_table(rows.take(i as int)) + terminated(rows[i as int].take(j as int)),
            decreases n - j,
        {
            let lang = &langs[j];
            assert(ls[j as int] == lang@);
            assert(spec_single(m, ls[i as int], ls[j as int], table_parent(m, ls[i as int])->0)
                is Some);
            let t = single_locale_translation(ldmls, baselang.as_str(), lang.as_str(), parent.as_str());
            proof {
                lemma_terminated_push(rows[i as int].take(j as int), t@);
                assert(rows[i as int].take(j + 1) =~= rows[i as int].take(j as int).push(t@));
            }
            out.append(t.as_str());
            push_char(&mut out, '\0');
            j = j + 1;
        }
        proof {
            assert(rows[i as int].take(n as int) =~= rows[i as int]);
            lemma_encode_table_push(rows.take(i as int), rows[i as int]);
            assert(rows.take(i + 1) =~= rows.take(i as int).push(rows[i as int]));
        }
        push_char(&mut out, '\0');
        i = i + 1;
    }
    assert(rows.take(n as int) =~= rows);
    out
}

/// The items other than `x`, in order.
pub open spec fn without(items: Seq<Seq<char>>, x: Seq<char>) -> Seq<Seq<char>>
    decreases items.len(),
{
    if items.len() == 0 {
        seq![]
    } else {
        let prev = without(items.drop_last(), x);
        if items.last() == x {
            prev
        } else {
            prev.push(items.last())
        }
    }
}

proof fn lemma_without_absent(items: Seq<Seq<char>>, x: Seq<char>)
    requires
        !items.contains(x),
    ensures
        without(items, x) == items,
    decreases items.len(),
{
    if items.len() > 0 {
        assert(!items.drop_last().contains(x)) by {
            if items.drop_last().contains(x) {
                let k = choose|k: int| 0 <= k < items.drop_last().len() && items.drop_last()[k] == x;
                assert(items[k] == x);
            }
        }
        lemma_without_absent(items.drop_last(), x);
        assert(items.last() != x) by {
            assert(items[items.len() - 1] == items.last());
        }
        assert(items.drop_last().push(items.last()) =~= items);
    }
}

/// What the generator writes is what the page reads: with the list of
/// languages and the table of names that the generated file holds,
/// `language_translations` gives, for a listed language, the names of its
/// row, those marked "take the parent's" from its parent language's row,
/// those marked "none" left out. The entries must be texts that the table
/// can hold: not empty and without NUL.
pub proof fn law_generated_names_read_back(
    m: Map<Seq<char>, LdmlModel>,
    langs: Seq<Seq<char>>,
    lang: Seq<char>,
)
    requires
        names_defined(m, langs),
        !langs.contains("root"@),
        langs.len() >= 1,
        forall|i: int| 0 <= i < langs.len() ==> nul_free(#[trigger] langs[i]),
        forall|i: int| 0 <= i < langs.len() ==> plain_entries(#[trigger] name_rows(m, langs)[i]),
        lang.len() > 0,
        lang[0] != '_',
    ensures
        spec_language_translations(
            lang,
            terminated(without(langs, "root"@)),
            encode_table(name_rows(m, langs)),
        ) == match spec_lang_parent(lang, terminated(langs)) {
            Err(e) => Err(e),
            Ok((i, j)) => Ok(
                translated_upto(langs, name_rows(m, langs)[i], name_rows(m, langs)[j], langs.len() as int),
            ),
        },
{
    lemma_without_absent(langs, "root"@);
    let rows = name_rows(m, langs);
    assert forall|i: int| 0 <= i < rows.len() implies (#[trigger] rows[i]).len() == langs.len()
        && plain_entries(rows[i]) by {
        assert(plain_entries(name_rows(m, langs)[i]));
    }
    law_translations_read_back(lang, langs, rows);
}

/// The text of the generated Rust file: the list of the languages other
/// than the root locale, and the table of names, each as a string
/// constant.
pub open spec fn file_text(m: Map<Seq<char>, LdmlModel>, langs: Seq<Seq<char>>) -> Seq<char> {
    "pub(crate) static AVAILABLE: &str = \""@ + terminated(without(langs, "root"@)) + "\";\n"@
        + "pub(crate) static TRANSLATIONS: &str = \""@ + encode_table(name_rows(m, langs))
        + "\";\n"@
}

/// The text of the generated Rust file.
pub fn available_languages_file_content(langs: &Vec<String>, ldmls: &TextMap<Ldml>) -> (r: String)
    requires
        names_defined(ldmls_model(ldmls@), views(langs@)),
    ensures
        r@ == file_text(ldmls_model(ldmls@), views(langs@)),
{
    let ghost ls = views(langs@);
    proof {
        reveal_strlit("root");
    }
    let mut listed = String::new();
    let mut i: usize = 0;
    while i < langs.len()
        invariant
            i <= langs.len(),
            ls == views(langs@),
            listed@ == terminated(without(ls.take(i as int), "root"@)),
        decreases langs.len() - i,
    {
        proof {
            assert(ls.take(i + 1).drop_last() =~= ls.take(i as int));
            assert(ls.take(i + 1).last() == langs@[i as int]@);
        }
        if !same_text(langs[i].as_str(), "root") {
            proof {
                lemma_terminated_push(without(ls.take(i as int), "root"@), langs@[i as int]@);
            }
            listed.append(langs[i].as_str());
            push_char(&mut listed, '\0');
        }
        i = i + 1;
    }
    assert(ls.take(langs.len() as int) =~= ls);
    let mut file_content = "pub(crate) static AVAILABLE: &str = \"".to_owned();
    file_content.append(listed.as_str());
    file_content.append("\";\n");
    file_content.append("pub(crate) static TRANSLATIONS: &str = \"");
    let names = all_languages_names(langs, ldmls);
    file_content.append(names.as_str());
    file_content.append("\";\n");
    file_content
}

/// The locale files by language, where the file of `langs[i]` is `docs[i]`
/// and each parses (a later file of the same language wins).
pub open spec fn ldml_table(langs: Seq<Seq<char>>, docs: Seq<Seq<char>>, n: int) -> Map<
    Seq<char>,
    LdmlModel,
>
    decreases n,
{
    if n <= 0 {
        Map::empty()
    } else {
        ldml_table(langs, docs, n - 1).insert(langs[n - 1], spec_ldml(docs[n - 1])->Ok_0)
    }
}

/// The first `n` locale files parse.
pub open spec fn ldmls_parse(docs: Seq<Seq<char>>, n: int) -> bool {
    forall|i: int| 0 <= i < n ==> (#[trigger] spec_ldml(docs[i])) is Ok
}

/// The parsed locale files, by language, or the error of the first file
/// that does not parse.
fn read_ldmls(langs: &Vec<String>, contents: &Vec<String>) -> (r: Result<TextMap<Ldml>, XmlError>)
    requires
        langs.len() == contents.len(),
    ensures
        match r {
            Ok(m) => ldmls_parse(views(contents@), langs.len() as int) && ldmls_model(m@)
                == ldml_table(views(langs@), views(contents@), langs.len() as int),
            Err(e) => exists|i: int|
                0 <= i < langs.len() && ldmls_parse(views(contents@), i) && spec_ldml(
                    contents@[i]@,
                ) == Err::<LdmlModel, XmlError>(e),
        },
{
    let ghost ls = views(langs@);
    let ghost ds = views(contents@);
    let mut m: TextMap<Ldml> = TextMap::new();
    assert(ldmls_model(m@) =~= Map::empty());
    let mut i: usize = 0;
    while i < langs.len()
        invariant
            i <= langs.len() == contents.len(),
            ls == views(langs@),
            ds == views(contents@),
            ldmls_parse(ds, i as int),
            ldmls_model(m@) == ldml_table(ls, ds, i as int),
        decreases langs.len() - i,
    {
        assert(ds[i as int] == contents@[i as int]@);
        let l = match parse_ldml_checked(contents[i].as_str()) {
            Ok(l) => l,
            Err(e) => {
                assert(spec_ldml(contents@[i as int]@) == Err::<LdmlModel, XmlError>(e));
                return Err(e);
            },
        };
        let ghost m0 = m@;
        m.insert(langs[i].clone(), l);
        proof {
            assert(ls[i as int] == langs@[i as int]@);
            assert(ldmls_model(m@) =~= ldmls_model(m0).insert(ls[i as int], l.model()));
            assert forall|j: int| 0 <= j < i + 1 implies (#[trigger] spec_ldml(ds[j])) is Ok by {
                if j < i {
                    assert(ldmls_parse(ds, i as int));
                }
            }
        }
        i = i + 1;
    }
    Ok(m)
}

/// The parsed locale files, by language: the file of `langs[i]` is
/// `contents[i]`. Each file must parse.
pub fn ldmls(langs: &Vec<String>, contents: &Vec<String>) -> (r: TextMap<Ldml>)
    requires
        langs.len() == contents.len(),
        ldmls_parse(views(contents@), langs.len() as int),
    ensures
        ldmls_model(r@) == ldml_table(views(langs@), views(contents@), langs.len() as int),
{
    match read_ldmls(langs, contents) {
        Ok(m) => m,
        Err(e) => {
            proof {
                let i = choose|i: int|
                    0 <= i < langs.len() && ldmls_parse(views(contents@), i) && spec_ldml(
                        contents@[i]@,
                    ) == Err::<LdmlModel, XmlError>(e);
                assert(views(contents@)[i] == contents@[i]@);
            }
            TextMap::new()
        },
    }
}

/// The parsed locale files as `ldmls` gives them, or the error of the first
/// file that does not parse.
pub fn ldmls_checked(langs: &Vec<String>, contents: &Vec<String>) -> (r: Result<
    TextMap<Ldml>,
    XmlError,
>)
    requires
        langs.len() == contents.len(),
    ensures
        match r {
            Ok(m) => ldmls_parse(views(contents@), langs.len() as int) && ldmls_model(m@)
                == ldml_table(views(langs@), views(contents@), langs.len() as int),
            Err(e) => exists|i: int|
                0 <= i < langs.len() && ldmls_parse(views(contents@), i) && spec_ldml(
                    contents@[i]@,
                ) == Err::<LdmlModel, XmlError>(e),
        },
{
    match read_ldmls(langs, contents) {
        Err(e) => Err(e),
        Ok(_) => Ok(ldmls(langs, contents)),
    }
}

/// The key of a category among a locale's character labels: lower case,
/// `&` read as `_`, spaces dropped.
pub open spec fn category_key(label: Seq<char>) -> Seq<char> {
    replace_seq(replace_seq(lower_ascii_seq(label), "&"@, "_"@), " "@, seq![])
}

/// The key of a category among a locale's character labels.
pub fn category_key_of(label: &str) -> (r: String)
    ensures
        r@ == category_key(label@),
{
    proof {
        reveal_strlit("&");
        reveal_strlit("_");
        reveal_strlit(" ");
        reveal_strlit("");
        assert(""@ =~= Seq::<char>::empty());
    }
    let lower = lower_ascii_string(label);
    let amp = replace_all(&chars_of(lower.as_str()), "&", "_");
    replace_all(&chars_of(amp.as_str()), " ", "")
}

/// Every language's labels name every category.
pub open spec fn labels_cover(labels: Seq<Map<Seq<char>, Seq<char>>>, cats: Seq<Seq<char>>) -> bool {
    forall|i: int, j: int|
        0 <= i < labels.len() && 0 <= j < cats.len() ==> #[trigger] labels[i].dom().contains(
            category_key(#[trigger] cats[j]),
        )
}

/// The table of category names: row `i` holds the label of each category
/// in the language of `labels[i]`.
pub open spec fn category_rows(labels: Seq<Map<Seq<char>, Seq<char>>>, cats: Seq<Seq<char>>) -> Seq<
    Seq<Seq<char>>,
> {
    Seq::new(
        labels.len(),
        |i: int| Seq::new(cats.len(), |j: int| labels[i][category_key(cats[j])]),
    )
}

/// The label maps as plain maps.
pub open spec fn label_views(labels: Seq<TextMap<String>>) -> Seq<Map<Seq<char>, Seq<char>>> {
    labels.map_values(|t: TextMap<String>| string_map(t@))
}

/// The table of category names in the format of `codec`, from the
/// character labels of each language; `Err((i, j))` where the labels of
/// language `i` lack category `j`, the first such pair row by row.
pub fn category_names(labels: &Vec<TextMap<String>>, categories: &Vec<String>) -> (r: Result<
    String,
    (usize, usize),
>)
    ensures
        match r {
            Ok(s) => labels_cover(label_views(labels@), views(categories@)) && s@ == encode_table(
                category_rows(label_views(labels@), views(categories@)),
            ),
            Err((i, j)) => {
                &&& i < labels.len()
                &&& j < categories.len()
                &&& !label_views(labels@)[i as int].dom().contains(
                    category_key(categories@[j as int]@),
                )
                &&& forall|a: int, b: int|
                    (0 <= a < i && 0 <= b < categories.len()) || (a == i && 0 <= b < j)
                        ==> #[trigger] label_views(labels@)[a].dom().contains(
                        category_key(#[trigger] categories@[b]@),
                    )
            },
        },
{
    let ghost lv = label_views(labels@);
    let ghost cs = views(categories@);
    let ghost rows = category_rows(lv, cs);
    let mut keys: Vec<String> = Vec::new();
    let mut k: usize = 0;
    while k < categories.len()
        invariant
            k <= categories.len(),
            keys.len() == k,
            forall|b: int| 0 <= b < k ==> keys@[b]@ == category_key(categories@[b]@),
        decreases categories.len() - k,
    {
        keys.push(category_key_of(categories[k].as_str()));
        k = k + 1;
    }
    let mut out = String::new();
    let mut i: usize = 0;
    while i < labels.len()
        invariant
            i <= labels.len(),
            keys.len() == categories.len(),
            forall|b: int| 0 <= b < categories.len() ==> keys@[b]@ == category_key(categories@[b]@),
            lv == label_views(labels@),
            cs == views(categories@),
            rows == category_rows(lv, cs),
            forall|a: int, b: int|
                0 <= a < i && 0 <= b < categories.len() ==> #[trigger] lv[a].dom().contains(
                    category_key(#[trigger] categories@[b]@),
                ),
            out@ == encode_table(rows.take(i as int)),
        decreases labels.len() - i,
    {
        let mut j: usize = 0;
        while j < categories.len()
            invariant
                i < labels.len(),
                j <= categories.len(),
                keys.len() == categories.len(),
                forall|b: int|
                    0 <= b < categories.len() ==> keys@[b]@ == category_key(categories@[b]@),
                lv == label_views(labels@),
                cs == views(categories@),
                rows == category_rows(lv, cs),
                forall|a: int, b: int|
                    (0 <= a < i && 0 <= b < categories.len()) || (a == i && 0 <= b < j)
                        ==> #[trigger] lv[a].dom().contains(category_key(#[trigger] categories@[b]@)),
                out@ == encode_table(rows.take(i as int)) + terminated(rows[i as int].take(j as int)),
            decreases categories.len() - j,
        {
            match labels[i].get(keys[j].as_str()) {
                None => {
                    assert(lv[i as int] == string_map(labels@[i as int]@));
                    return Err((i, j));
                },
                Some(v) => {
                    proof {
                        assert(lv[i as int] == string_map(labels@[i as int]@));
                        assert(cs[j as int] == categories@[j as int]@);
                        assert(rows[i as int][j as int] == v@);
                        lemma_terminated_push(rows[i as int].take(j as int), v@);
                        assert(rows[i as int].take(j + 1) =~= rows[i as int].take(j as int).push(v@));
                    }
                    out.append(v.as_str());
                    push_char(&mut out, '\0');
                },
            }
            j = j + 1;
        }
        proof {
            assert(rows[i as int].take(categories.len() as int) =~= rows[i as int]);
            lemma_encode_table_push(rows.take(i as int), rows[i as int]);
            assert(rows.take(i + 1) =~= rows.take(i as int).push(rows[i as int]));
        }
        push_char(&mut out, '\0');
        i = i + 1;
    }
    proof {
        assert(rows.take(labels.len() as int) =~= rows);
        assert forall|a: int, b: int|
            0 <= a < lv.len() && 0 <= b < cs.len() implies #[trigger] lv[a].dom().contains(
                category_key(#[trigger] cs[b]),
            ) by {
            assert(cs[b] == categories@[b]@);
        }
    }
    Ok(out)
}

/// Why the table of category names could not be made.
pub enum CategoryNamesError {
    /// A locale file does not parse.
    Xml(XmlError),
    /// The locale file of `lang` has no label for the category `label`.
    MissingLabel { label: String, lang: String },
}

/// The character labels that the locale file `doc` gives.
pub open spec fn file_labels(doc: Seq<char>) -> Result<Map<Seq<char>, Seq<char>>, XmlError> {
    spec_path_values_doc(doc, charlabel_path(), false, false)
}

/// The character labels of each of the locale files, where they parse.
pub open spec fn all_file_labels(docs: Seq<Seq<char>>) -> Seq<Map<Seq<char>, Seq<char>>> {
    Seq::new(docs.len(), |i: int| file_labels(docs[i])->Ok_0)
}

/// The first `n` locale files give their character labels.
pub open spec fn labels_parse(docs: Seq<Seq<char>>, n: int) -> bool {
    forall|i: int| 0 <= i < n ==> (#[trigger] file_labels(docs[i])) is Ok
}

/// The table of category names in the format of `codec`: row `i` holds,
/// for each category of `categories`, its label in the locale file
/// `contents[i]` of the language `langs[i]`. Each file must give its
/// character labels, and a label for each category.
pub fn all_categories_names(langs: &Vec<String>, contents: &Vec<String>, categories: &Vec<String>) -> (r:
    String)
    requires
        langs.len() == contents.len(),
        labels_parse(views(contents@), contents.len() as int),
        labels_cover(all_file_labels(views(contents@)), views(categories@)),
    ensures
        r@ == encode_table(category_rows(all_file_labels(views(contents@)), views(categories@))),
{
    let ghost ds = views(contents@);
    let mut labels: Vec<TextMap<String>> = Vec::new();
    let mut i: usize = 0;
    while i < contents.len()
        invariant
            i <= contents.len(),
            ds == views(contents@),
            labels.len() == i,
            labels_parse(ds, contents.len() as int),
            forall|a: int| 0 <= a < i ==> #[trigger] label_views(labels@)[a] == all_file_labels(ds)[a],
        decreases contents.len() - i,
    {
        assert(ds[i as int] == contents@[i as int]@);
        assert(file_labels(ds[i as int]) is Ok);
        let m = parse_charlabels(contents[i].as_str());
        let ghost before = labels@;
        labels.push(m);
        proof {
            assert forall|a: int| 0 <= a < i + 1 implies #[trigger] label_views(labels@)[a]
                == all_file_labels(ds)[a] by {
                if a < i {
                    assert(label_views(labels@)[a] == label_views(before)[a]);
                }
            }
        }
        i = i + 1;
    }
    assert(label_views(labels@) =~= all_file_labels(ds));
    match category_names(&labels, categories) {
        Ok(s) => s,
        Err((a, b)) => {
            proof {
                assert(views(categories@)[b as int] == categories@[b as int]@);
                assert(false);
            }
            String::new()
        },
    }
}

/// The table of category names as `all_categories_names` makes it, or why
/// it cannot be made: the first file that does not parse gives its error;
/// then the first language, row by row, whose file has no label for a
/// category.
pub fn all_categories_names_checked(
    langs: &Vec<String>,
    contents: &Vec<String>,
    categories: &Vec<String>,
) -> (r: Result<String, CategoryNamesError>)
    requires
        langs.len() == contents.len(),
    ensures
        match r {
            Ok(s) => {
                &&& labels_parse(views(contents@), contents.len() as int)
                &&& labels_cover(all_file_labels(views(contents@)), views(categories@))
                &&& s@ == encode_table(
                    category_rows(all_file_labels(views(contents@)), views(categories@)),
                )
            },
            Err(CategoryNamesError::Xml(e)) => exists|i: int|
                0 <= i < contents.len() && labels_parse(views(contents@), i) && file_labels(
                    contents@[i]@,
                ) == Err::<Map<Seq<char>, Seq<char>>, XmlError>(e),
            Err(CategoryNamesError::MissingLabel { label, lang }) => {
                &&& labels_parse(views(contents@), contents.len() as int)
                &&& exists|i: int, j: int|
                    0 <= i < langs.len() && 0 <= j < categories.len() && lang@ == langs@[i]@
                        && label@ == categories@[j]@ && !all_file_labels(
                        views(contents@),
                    )[i].dom().contains(category_key(categories@[j]@)) && forall|a: int, b: int|
                        (0 <= a < i && 0 <= b < categories.len()) || (a == i && 0 <= b < j)
                            ==> #[trigger] all_file_labels(views(contents@))[a].dom().contains(
                            category_key(#[trigger] categories@[b]@),
                        )
            },
        },
{
    let ghost ds = views(contents@);
    let mut labels: Vec<TextMap<String>> = Vec::new();
    let mut i: usize = 0;
    while i < contents.len()
        invariant
            i <= contents.len(),
            ds == views(contents@),
            labels.len() == i,
            labels_parse(ds, i as int),
            forall|a: int| 0 <= a < i ==> #[trigger] label_views(labels@)[a] == all_file_labels(ds)[a],
        decreases contents.len() - i,
    {
        assert(ds[i as int] == contents@[i as int]@);
        let m = match parse_charlabels_checked(contents[i].as_str()) {
            Ok(m) => m,
            Err(e) => return Err(CategoryNamesError::Xml(e)),
        };
        let ghost before = labels@;
        labels.push(m);
        proof {
            assert forall|a: int| 0 <= a < i + 1 implies #[trigger] label_views(labels@)[a]
                == all_file_labels(ds)[a] by {
                if a < i {
                    assert(label_views(labels@)[a] == label_views(before)[a]);
                }
            }
            assert forall|a: int| 0 <= a < i + 1 implies (#[trigger] file_labels(ds[a])) is Ok by {
                if a < i {
                    assert(labels_parse(ds, i as int));
                }
            }
        }
        i = i + 1;
    }
    assert(label_views(labels@) =~= all_file_labels(ds));
    match category_names(&labels, categories) {
        Ok(_) => Ok(all_categories_names(langs, contents, categories)),
        Err((a, b)) => {
            let label = categories[b].clone();
            let lang = langs[a].clone();
            proof {
                assert(label_views(labels@) == all_file_labels(ds));
            }
            Err(CategoryNamesError::MissingLabel { label, lang })
        },
    }
}

} // verus!
