//! The tables that the generator writes: the list of languages, and the
//! name of each language in each language.
//!
//! A name is taken from the locale file of the language in which it is
//! written; where that file defers (`↑↑↑`) or is silent, from its parent's
//! file, or it is composed from the names of the parts of the locale code
//! (language, script, territory) by the locale's pattern.
use vstd::prelude::*;
use crate::build::ldml::{Ldml, LdmlModel};
use crate::collect::upper_mark;
use crate::table::TextMap;
use crate::text::{chars_of, has_char, opt_view, replace_all, replace_seq, views};

verus! {

/// The models of the locale files, by locale code.
pub open spec fn ldmls_model(m: Map<Seq<char>, Ldml>) -> Map<Seq<char>, LdmlModel> {
    m.map_values(|l: Ldml| l.model())
}

/// A part of a locale file that a name is looked up in.
pub enum Part {
    Language(String),
    Script(String),
    Territory(String),
    LocalePattern,
    LocaleSeparator,
}

/// The model of a part of a locale file.
pub enum PartModel {
    Language(Seq<char>),
    Script(Seq<char>),
    Territory(Seq<char>),
    LocalePattern,
    LocaleSeparator,
}

impl Part {
    pub open spec fn model(&self) -> PartModel {
        match self {
            Part::Language(k) => PartModel::Language(k@),
            Part::Script(k) => PartModel::Script(k@),
            Part::Territory(k) => PartModel::Territory(k@),
            Part::LocalePattern => PartModel::LocalePattern,
            Part::LocaleSeparator => PartModel::LocaleSeparator,
        }
    }
}

/// The value of a part of a locale file, where it has one.
pub open spec fn field_of(l: LdmlModel, f: PartModel) -> Option<Seq<char>> {
    match f {
        PartModel::Language(k) => l.languages.get(k),
        PartModel::Script(k) => l.scripts.get(k),
        PartModel::Territory(k) => l.territories.get(k),
        PartModel::LocalePattern => Some(l.locale_pattern),
        PartModel::LocaleSeparator => Some(l.locale_separator),
    }
}

/// A value that is present and does not defer to the parent (`↑↑↑`). An
/// empty name is a name like any other.
pub open spec fn usable(v: Option<Seq<char>>) -> bool {
    v is Some && v->0 != upper_mark()
}

/// Whether the parts are the display pattern or its separator, whose value
/// is the text that a name is composed by.
pub open spec fn is_pattern(f: PartModel) -> bool {
    f is LocalePattern || f is LocaleSeparator
}

/// A value of the part `f` that a lookup stops at: a usable value, and for
/// the display pattern and its separator, one that is not empty (a file
/// without the element has an empty one).
pub open spec fn part_usable(f: PartModel, v: Option<Seq<char>>) -> bool {
    usable(v) && (is_pattern(f) ==> v->0.len() > 0)
}

/// Where a value was found: in the locale's own file, in its parent's, or
/// nowhere.
pub enum ItemOrParent<T> {
    Absent,
    Parent(T),
    Item(T),
}

/// The model of where a value was found.
pub enum Lookup {
    Missing,
    Parent(Seq<char>),
    Item(Seq<char>),
}

impl ItemOrParent<String> {
    pub open spec fn model(&self) -> Lookup {
        match self {
            ItemOrParent::Absent => Lookup::Missing,
            ItemOrParent::Parent(t) => Lookup::Parent(t@),
            ItemOrParent::Item(t) => Lookup::Item(t@),
        }
    }
}

impl<T> ItemOrParent<T> {
    /// The value found, if any; `has_from_item` is set where it was found in
    /// the locale's own file.
    pub fn update_is_item(self, has_from_item: &mut bool) -> (r: Option<T>)
        ensures
            match self {
                ItemOrParent::Absent => r is None && *final(has_from_item) == *old(has_from_item),
                ItemOrParent::Parent(t) => r == Some(t) && *final(has_from_item)
                    == *old(has_from_item),
                ItemOrParent::Item(t) => r == Some(t) && *final(has_from_item),
            },
    {
        match self {
            ItemOrParent::Absent => None,
            ItemOrParent::Parent(t) => Some(t),
            ItemOrParent::Item(t) => {
                *has_from_item = true;
                Some(t)
            },
        }
    }
}

pub open spec fn lookup_text(l: Lookup) -> Seq<char> {
    match l {
        Lookup::Missing => seq![],
        Lookup::Parent(t) => t,
        Lookup::Item(t) => t,
    }
}

/// Where the value of `f` for `base` is found: its own file, else its
/// parent language's file (where that is another file); `None` where a file
/// that must be consulted is missing.
pub open spec fn spec_value_or_parent(m: Map<Seq<char>, LdmlModel>, base: Seq<char>, f: PartModel) -> Option<
    Lookup,
> {
    if !m.dom().contains(base) {
        None
    } else if part_usable(f, field_of(m[base], f)) {
        Some(Lookup::Item(field_of(m[base], f)->0))
    } else {
        let parent = m[base].language;
        if parent != base {
            if !m.dom().contains(parent) {
                None
            } else if part_usable(f, field_of(m[parent], f)) {
                Some(Lookup::Parent(field_of(m[parent], f)->0))
            } else {
                Some(Lookup::Missing)
            }
        } else {
            Some(Lookup::Missing)
        }
    }
}

/// The value of `f` for `base`: from its own file, else its parent
/// language's, else the root file's, which must have one that neither
/// defers nor is empty; `None` where no such value is found.
pub open spec fn spec_value_or_root(m: Map<Seq<char>, LdmlModel>, base: Seq<char>, f: PartModel) -> Option<
    Seq<char>,
> {
    if !m.dom().contains(base) {
        None
    } else if part_usable(f, field_of(m[base], f)) {
        field_of(m[base], f)
    } else {
        let parent = m[base].language;
        if parent != base && !m.dom().contains(parent) {
            None
        } else if parent != base && part_usable(f, field_of(m[parent], f)) {
            field_of(m[parent], f)
        } else if !m.dom().contains("root"@) {
            None
        } else {
            match field_of(m["root"@], f) {
                None => None,
                Some(v) => if v == upper_mark() || v.len() == 0 {
                    None
                } else {
                    Some(v)
                },
            }
        }
    }
}

/// The outcome of composing a locale's name.
pub enum LocaleTranslation {
    Unnamed,
    Parent,
    Named(String),
}

pub enum TranslationModel {
    Unnamed,
    Parent,
    Named(Seq<char>),
}

impl LocaleTranslation {
    pub open spec fn model(&self) -> TranslationModel {
        match self {
            LocaleTranslation::Unnamed => TranslationModel::Unnamed,
            LocaleTranslation::Parent => TranslationModel::Parent,
            LocaleTranslation::Named(s) => TranslationModel::Named(s@),
        }
    }

    /// The table entry of the outcome: the name, or the substitute mark
    /// (U+001A) for "take the parent's", or the cancel mark (U+0018) for
    /// "none".
    pub fn into_string(self) -> (r: String)
        ensures
            r@ == translation_text(self.model()),
    {
        match self {
            LocaleTranslation::Unnamed => {
                let mut s = String::new();
                crate::text::push_char(&mut s, '\u{18}');
                s
            },
            LocaleTranslation::Parent => {
                let mut s = String::new();
                crate::text::push_char(&mut s, '\u{1a}');
                s
            },
            LocaleTranslation::Named(s) => s,
        }
    }
}

pub open spec fn translation_text(t: TranslationModel) -> Seq<char> {
    match t {
        TranslationModel::Unnamed => seq!['\u{18}'],
        TranslationModel::Parent => seq!['\u{1a}'],
        TranslationModel::Named(s) => s,
    }
}

/// The script part of a composed name: `Some(None)` where the script has
/// no name; else whether its name is the locale's own, and the name.
pub open spec fn script_part(m: Map<Seq<char>, LdmlModel>, base: Seq<char>, script: Option<Seq<char>>) -> Option<
    Option<(bool, Seq<char>)>,
> {
    match script {
        None => Some(Some((false, seq![]))),
        Some(s) => match spec_value_or_parent(m, base, PartModel::Script(s)) {
            None => None,
            Some(Lookup::Missing) => Some(None),
            Some(l) => Some(Some((l is Item, lookup_text(l)))),
        },
    }
}

/// The script-and-territory part of a composed name, given its script part
/// `st`: the territory's name joins it through the locale's separator
/// pattern (`{0}` the script, `{1}` the territory).
pub open spec fn territory_part(
    m: Map<Seq<char>, LdmlModel>,
    base: Seq<char>,
    territory: Option<Seq<char>>,
    st: Seq<char>,
) -> Option<Option<(bool, Seq<char>)>> {
    match territory {
        None => Some(Some((false, st))),
        Some(t) => match spec_value_or_parent(m, base, PartModel::Territory(t)) {
            None => None,
            Some(Lookup::Missing) => Some(None),
            Some(l) => if st.len() == 0 {
                Some(Some((l is Item, lookup_text(l))))
            } else {
                match spec_value_or_root(m, base, PartModel::LocaleSeparator) {
                    None => None,
                    Some(sep) => Some(
                        Some(
                            (
                                l is Item,
                                replace_seq(
                                    replace_seq(sep, "{0}"@, st),
                                    "{1}"@,
                                    lookup_text(l),
                                ),
                            ),
                        ),
                    ),
                }
            },
        },
    }
}

/// The name of the locale `locale` composed in the language `baselang`:
/// none for a code without `_` or where a part has no name; "take the
/// parent's" where every part's name comes from the parent's file; else the
/// locale pattern with `{0}` the language's name and `{1}` the script and
/// territory part. `None` where a file or value that must be consulted is
/// missing.
pub open spec fn spec_locale_format(m: Map<Seq<char>, LdmlModel>, baselang: Seq<char>, locale: Seq<char>) -> Option<
    TranslationModel,
> {
    if !locale.contains('_') {
        Some(TranslationModel::Unnamed)
    } else if !m.dom().contains(locale) {
        None
    } else {
        let id = m[locale];
        match spec_value_or_parent(m, baselang, PartModel::Language(id.language)) {
            None => None,
            Some(Lookup::Missing) => Some(TranslationModel::Unnamed),
            Some(base_l) => match spec_value_or_root(m, baselang, PartModel::LocalePattern) {
                None => None,
                Some(pattern) => {
                    let formatted = replace_seq(pattern, "{0}"@, lookup_text(base_l));
                    match script_part(m, baselang, id.script) {
                        None => None,
                        Some(None) => Some(TranslationModel::Unnamed),
                        Some(Some((item1, st))) => match territory_part(
                            m,
                            baselang,
                            id.territory,
                            st,
                        ) {
                            None => None,
                            Some(None) => Some(TranslationModel::Unnamed),
                            Some(Some((item2, st2))) => if base_l is Item || item1 || item2 {
                                Some(TranslationModel::Named(replace_seq(formatted, "{1}"@, st2)))
                            } else {
                                Some(TranslationModel::Parent)
                            },
                        },
                    }
                },
            },
        }
    }
}

/// The value of a part of a locale file, where it has one.
pub fn field_value(l: &Ldml, f: &Part) -> (r: Option<String>)
    ensures
        opt_view(r) == field_of(l.model(), f.model()),
{
    match f {
        Part::Language(k) => match l.languages.get(k.as_str()) {
            Some(v) => Some(v.clone()),
            None => None,
        },
        Part::Script(k) => match l.scripts.get(k.as_str()) {
            Some(v) => Some(v.clone()),
            None => None,
        },
        Part::Territory(k) => match l.territories.get(k.as_str()) {
            Some(v) => Some(v.clone()),
            None => None,
        },
        Part::LocalePattern => Some(l.locale_pattern.clone()),
        Part::LocaleSeparator => Some(l.locale_separator.clone()),
    }
}

/// Whether a value defers to the parent locale (`↑↑↑`).
pub fn is_upper(s: &String) -> (r: bool)
    ensures
        r == (s@ == upper_mark()),
{
    proof {
        reveal_strlit("\u{2191}\u{2191}\u{2191}");
        assert("\u{2191}\u{2191}\u{2191}"@ =~= upper_mark());
    }
    crate::text::same_text(s.as_str(), "\u{2191}\u{2191}\u{2191}")
}

/// A value that is present and does not defer to the parent.
pub(crate) fn usable_value(v: Option<String>) -> (r: Option<String>)
    ensures
        usable(opt_view(v)) ==> r == v,
        !usable(opt_view(v)) ==> r is None,
{
    match v {
        Some(s) => if is_upper(&s) {
            None
        } else {
            Some(s)
        },
        None => None,
    }
}

/// A value of the part `f` that a lookup stops at.
fn part_value(v: Option<String>, f: &Part) -> (r: Option<String>)
    ensures
        part_usable(f.model(), opt_view(v)) ==> r == v,
        !part_usable(f.model(), opt_view(v)) ==> r is None,
{
    match usable_value(v) {
        Some(s) => match f {
            Part::LocalePattern | Part::LocaleSeparator => if s.as_str().is_empty() {
                None
            } else {
                Some(s)
            },
            _ => Some(s),
        },
        None => None,
    }
}

/// Where the value of `field` for `baselocale` is found, or `None` where a
/// file that must be consulted is missing.
fn try_value_or_parent(ldmls: &TextMap<Ldml>, baselocale: &str, field: &Part) -> (r: Option<
    ItemOrParent<String>,
>)
    ensures
        spec_value_or_parent(ldmls_model(ldmls@), baselocale@, field.model()) == match r {
            Some(l) => Some(l.model()),
            None => None::<Lookup>,
        },
{
    let ghost m = ldmls_model(ldmls@);
    let base = match ldmls.get(baselocale) {
        Some(b) => b,
        None => return None,
    };
    assert(m[baselocale@] == base.model());
    if let Some(v) = part_value(field_value(base, field), field) {
        return Some(ItemOrParent::Item(v));
    }
    let parent = &base.identity.language;
    if !crate::text::same_text(parent.as_str(), baselocale) {
        let pl = match ldmls.get(parent.as_str()) {
            Some(l) => l,
            None => return None,
        };
        assert(m[parent@] == pl.model());
        if let Some(v) = part_value(field_value(pl, field), field) {
            return Some(ItemOrParent::Parent(v));
        }
    }
    Some(ItemOrParent::Absent)
}

/// Where the value of `field` for `baselocale` is found: its own file,
/// else its parent language's file.
pub fn value_or_parent(ldmls: &TextMap<Ldml>, baselocale: &str, field: &Part) -> (r: ItemOrParent<
    String,
>)
    requires
        spec_value_or_parent(ldmls_model(ldmls@), baselocale@, field.model()) is Some,
    ensures
        spec_value_or_parent(ldmls_model(ldmls@), baselocale@, field.model()) == Some(r.model()),
{
    try_value_or_parent(ldmls, baselocale, field).unwrap()
}

/// The value of `field` for `baselocale`, or `None` where a file that must
/// be consulted is missing or the root file has no value to give.
fn try_value_or_root(ldmls: &TextMap<Ldml>, baselocale: &str, field: &Part) -> (r: Option<String>)
    ensures
        spec_value_or_root(ldmls_model(ldmls@), baselocale@, field.model()) == opt_view(r),
{
    let ghost m = ldmls_model(ldmls@);
    let base = match ldmls.get(baselocale) {
        Some(b) => b,
        None => return None,
    };
    assert(m[baselocale@] == base.model());
    if let Some(v) = part_value(field_value(base, field), field) {
        return Some(v);
    }
    let parent = &base.identity.language;
    if !crate::text::same_text(parent.as_str(), baselocale) {
        let pl = match ldmls.get(parent.as_str()) {
            Some(l) => l,
            None => return None,
        };
        assert(m[parent@] == pl.model());
        if let Some(v) = part_value(field_value(pl, field), field) {
            return Some(v);
        }
    }
    proof {
        reveal_strlit("root");
    }
    let root = match ldmls.get("root") {
        Some(r) => r,
        None => return None,
    };
    assert(m["root"@] == root.model());
    match field_value(root, field) {
        None => None,
        Some(v) => {
            if is_upper(&v) || v.as_str().is_empty() {
                None
            } else {
                Some(v)
            }
        },
    }
}

/// The value of `field` for `baselocale`: from its own file, else its
/// parent language's, else the root file's.
pub fn value_or_root(ldmls: &TextMap<Ldml>, baselocale: &str, field: &Part) -> (r: String)
    requires
        spec_value_or_root(ldmls_model(ldmls@), baselocale@, field.model()) is Some,
    ensures
        spec_value_or_root(ldmls_model(ldmls@), baselocale@, field.model()) == Some(r@),
{
    try_value_or_root(ldmls, baselocale, field).unwrap()
}

/// The name of the locale `locale` composed in the language `baselang`, or
/// `None` where a file or value that must be consulted is missing.
pub(crate) fn try_locale_format(baselang: &str, locale: &str, ldmls: &TextMap<Ldml>) -> (r: Option<
    LocaleTranslation,
>)
    ensures
        spec_locale_format(ldmls_model(ldmls@), baselang@, locale@) == match r {
            Some(t) => Some(t.model()),
            None => None::<TranslationModel>,
        },
{
    let ghost m = ldmls_model(ldmls@);
    proof {
        reveal_strlit("{0}");
        reveal_strlit("{1}");
    }
    if !has_char(&chars_of(locale), '_') {
        return Some(LocaleTranslation::Unnamed);
    }
    let loc = match ldmls.get(locale) {
        Some(l) => l,
        None => return None,
    };
    assert(m[locale@] == loc.model());
    let language = loc.identity.language.clone();
    let mut has_from_item = false;
    let base_lookup = match try_value_or_parent(ldmls, baselang, &Part::Language(language)) {
        Some(l) => l,
        None => return None,
    };
    let ghost base_l = base_lookup.model();
    let base = match base_lookup.update_is_item(&mut has_from_item) {
        None => return Some(LocaleTranslation::Unnamed),
        Some(t) => t,
    };
    let locale_pattern = match try_value_or_root(ldmls, baselang, &Part::LocalePattern) {
        Some(p) => p,
        None => return None,
    };
    let formatted = replace_all(&chars_of(locale_pattern.as_str()), "{0}", base.as_str());
    let mut script_territory = String::new();
    let ghost mut item1 = false;
    if let Some(script) = &loc.identity.script {
        let lk = match try_value_or_parent(ldmls, baselang, &Part::Script(script.clone())) {
            Some(l) => l,
            None => return None,
        };
        proof {
            item1 = lk.model() is Item;
        }
        let script_name = match lk.update_is_item(&mut has_from_item) {
            None => return Some(LocaleTranslation::Unnamed),
            Some(t) => t,
        };
        script_territory = script_name;
    }
    assert(script_part(m, baselang@, loc.model().script) == Some(
        Some((item1, script_territory@)),
    ));
    let ghost st0 = script_territory@;
    let ghost mut item2 = false;
    if let Some(territory) = &loc.identity.territory {
        let lk = match try_value_or_parent(ldmls, baselang, &Part::Territory(territory.clone())) {
            Some(l) => l,
            None => return None,
        };
        proof {
            item2 = lk.model() is Item;
        }
        let territory_name = match lk.update_is_item(&mut has_from_item) {
            None => return Some(LocaleTranslation::Unnamed),
            Some(t) => t,
        };
        if script_territory.as_str().is_empty() {
            script_territory = territory_name;
        } else {
            let locale_separator = match try_value_or_root(ldmls, baselang, &Part::LocaleSeparator) {
                Some(p) => p,
                None => return None,
            };
            let first = replace_all(&chars_of(locale_separator.as_str()), "{0}", script_territory.as_str());
            script_territory = replace_all(&chars_of(first.as_str()), "{1}", territory_name.as_str());
        }
    }
    assert(territory_part(m, baselang@, loc.model().territory, st0) == Some(
        Some((item2, script_territory@)),
    ));
    assert(has_from_item == (base_l is Item || item1 || item2));
    if has_from_item {
        Some(
            LocaleTranslation::Named(
                replace_all(&chars_of(formatted.as_str()), "{1}", script_territory.as_str()),
            ),
        )
    } else {
        Some(LocaleTranslation::Parent)
    }
}

/// The name of the locale `locale` composed in the language `baselang`.
pub fn _locale_format(baselang: &str, locale: &str, ldmls: &TextMap<Ldml>) -> (r: LocaleTranslation)
    requires
        spec_locale_format(ldmls_model(ldmls@), baselang@, locale@) is Some,
    ensures
        spec_locale_format(ldmls_model(ldmls@), baselang@, locale@) == Some(r.model()),
{
    try_locale_format(baselang, locale, ldmls).unwrap()
}


/// A locale with both a script and a territory is named by the display
/// pattern, `{0}` the name of its language and `{1}` the separator pattern
/// with `{0}` the name of its script and `{1}` that of its territory, where
/// the three names are found (in the file of `baselang` or of its parent
/// language), the script's name is not empty, and at least one of them is
/// the file's own.
pub proof fn law_locale_name_joins_script_and_territory(
    m: Map<Seq<char>, LdmlModel>,
    baselang: Seq<char>,
    locale: Seq<char>,
    language: Lookup,
    script: Lookup,
    territory: Lookup,
    pattern: Seq<char>,
    separator: Seq<char>,
)
    requires
        locale.contains('_'),
        m.dom().contains(locale),
        m[locale].script is Some,
        m[locale].territory is Some,
        spec_value_or_parent(m, baselang, PartModel::Language(m[locale].language)) == Some(language),
        spec_value_or_parent(m, baselang, PartModel::Script(m[locale].script->0)) == Some(script),
        spec_value_or_parent(m, baselang, PartModel::Territory(m[locale].territory->0)) == Some(
            territory,
        ),
        !(language is Missing),
        !(script is Missing),
        !(territory is Missing),
        lookup_text(script).len() > 0,
        language is Item || script is Item || territory is Item,
        spec_value_or_root(m, baselang, PartModel::LocalePattern) == Some(pattern),
        spec_value_or_root(m, baselang, PartModel::LocaleSeparator) == Some(separator),
    ensures
        spec_locale_format(m, baselang, locale) == Some(
            TranslationModel::Named(
                replace_seq(
                    replace_seq(pattern, "{0}"@, lookup_text(language)),
                    "{1}"@,
                    replace_seq(
                        replace_seq(separator, "{0}"@, lookup_text(script)),
                        "{1}"@,
                        lookup_text(territory),
                    ),
                ),
            ),
        ),
{
}

/// Where the file of `baselang` itself names the language, the script and
/// the territory of a locale that has both, and gives its own display
/// pattern and separator, the locale's name is the pattern with `{0}` the
/// language's name and `{1}` the separator with `{0}` the script's name and
/// `{1}` the territory's: the script's name is part of it.
pub proof fn law_own_names_compose(
    m: Map<Seq<char>, LdmlModel>,
    baselang: Seq<char>,
    locale: Seq<char>,
)
    requires
        locale.contains('_'),
        m.dom().contains(locale),
        m.dom().contains(baselang),
        m[locale].script is Some,
        m[locale].territory is Some,
        m[baselang].languages.dom().contains(m[locale].language),
        m[baselang].languages[m[locale].language] != upper_mark(),
        m[baselang].scripts.dom().contains(m[locale].script->0),
        m[baselang].scripts[m[locale].script->0] != upper_mark(),
        m[baselang].scripts[m[locale].script->0].len() > 0,
        m[baselang].territories.dom().contains(m[locale].territory->0),
        m[baselang].territories[m[locale].territory->0] != upper_mark(),
        m[baselang].locale_pattern != upper_mark(),
        m[baselang].locale_pattern.len() > 0,
        m[baselang].locale_separator != upper_mark(),
        m[baselang].locale_separator.len() > 0,
    ensures
        spec_locale_format(m, baselang, locale) == Some(
            TranslationModel::Named(
                replace_seq(
                    replace_seq(
                        m[baselang].locale_pattern,
                        "{0}"@,
                        m[baselang].languages[m[locale].language],
                    ),
                    "{1}"@,
                    replace_seq(
                        replace_seq(
                            m[baselang].locale_separator,
                            "{0}"@,
                            m[baselang].scripts[m[locale].script->0],
                        ),
                        "{1}"@,
                        m[baselang].territories[m[locale].territory->0],
                    ),
                ),
            ),
        ),
{
    let l = m[baselang];
    let id = m[locale];
    assert(field_of(l, PartModel::Language(id.language)) == Some(l.languages[id.language]));
    assert(field_of(l, PartModel::Script(id.script->0)) == Some(l.scripts[id.script->0]));
    assert(field_of(l, PartModel::Territory(id.territory->0)) == Some(
        l.territories[id.territory->0],
    ));
    law_locale_name_joins_script_and_territory(
        m,
        baselang,
        locale,
        Lookup::Item(l.languages[id.language]),
        Lookup::Item(l.scripts[id.script->0]),
        Lookup::Item(l.territories[id.territory->0]),
        l.locale_pattern,
        l.locale_separator,
    );
}

/// A locale with a script and no territory is named by the display pattern
/// with `{0}` the name of its language and `{1}` that of its script; one
/// with a territory and no script, with `{1}` the name of its territory;
/// where the names are found and at least one is the file's own.
pub proof fn law_locale_name_with_one_part(
    m: Map<Seq<char>, LdmlModel>,
    baselang: Seq<char>,
    locale: Seq<char>,
    language: Lookup,
    part: Lookup,
    pattern: Seq<char>,
)
    requires
        locale.contains('_'),
        m.dom().contains(locale),
        m[locale].script is Some <==> m[locale].territory is None,
        spec_value_or_parent(m, baselang, PartModel::Language(m[locale].language)) == Some(language),
        m[locale].script is Some ==> spec_value_or_parent(
            m,
            baselang,
            PartModel::Script(m[locale].script->0),
        ) == Some(part),
        m[locale].territory is Some ==> spec_value_or_parent(
            m,
            baselang,
            PartModel::Territory(m[locale].territory->0),
        ) == Some(part),
        !(language is Missing),
        !(part is Missing),
        language is Item || part is Item,
        spec_value_or_root(m, baselang, PartModel::LocalePattern) == Some(pattern),
    ensures
        spec_locale_format(m, baselang, locale) == Some(
            TranslationModel::Named(
                replace_seq(
                    replace_seq(pattern, "{0}"@, lookup_text(language)),
                    "{1}"@,
                    lookup_text(part),
                ),
            ),
        ),
{
}

/// A locale code without `_` has no composed name; one whose language,
/// script or territory has no name found has none either; and one whose
/// names are all found in the parent language's file, none in the file of
/// `baselang`, takes the parent's.
pub proof fn law_locale_name_unnamed_or_parent(
    m: Map<Seq<char>, LdmlModel>,
    baselang: Seq<char>,
    locale: Seq<char>,
)
    ensures
        !locale.contains('_') ==> spec_locale_format(m, baselang, locale) == Some(
            TranslationModel::Unnamed,
        ),
        locale.contains('_') && m.dom().contains(locale) && spec_value_or_parent(
            m,
            baselang,
            PartModel::Language(m[locale].language),
        ) == Some(Lookup::Missing) ==> spec_locale_format(m, baselang, locale) == Some(
            TranslationModel::Unnamed,
        ),
        ({
            let id = m[locale];
            let lang = spec_value_or_parent(m, baselang, PartModel::Language(id.language));
            let script = match id.script {
                Some(sc) => spec_value_or_parent(m, baselang, PartModel::Script(sc)),
                None => Some(Lookup::Parent(seq![])),
            };
            let territory = match id.territory {
                Some(t) => spec_value_or_parent(m, baselang, PartModel::Territory(t)),
                None => Some(Lookup::Parent(seq![])),
            };
            &&& locale.contains('_')
            &&& m.dom().contains(locale)
            &&& lang is Some && lang->0 is Parent
            &&& script is Some && script->0 is Parent
            &&& territory is Some && territory->0 is Parent
            &&& spec_value_or_root(m, baselang, PartModel::LocalePattern) is Some
            &&& id.script is Some && id.territory is Some ==> spec_value_or_root(
                m,
                baselang,
                PartModel::LocaleSeparator,
            ) is Some
        }) ==> spec_locale_format(m, baselang, locale) == Some(TranslationModel::Parent),
{
}

} // verus!
