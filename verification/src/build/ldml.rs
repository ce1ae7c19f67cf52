//! What the table generator reads of a CLDR locale file (LDML): the
//! locale's identity, its pattern for naming locales, and its names of
//! languages, territories, scripts and character categories.
use vstd::prelude::*;
use crate::build::xml::{match_events, path_views, spec_multi, spec_multi_doc, tagged_seq};
use crate::collect::{attr_text, string_map, type_value_step, TypeValueState, TypeValues};
use crate::table::TextMap;
use crate::text::{opt_view, views};
use crate::xml::{Emitted, EventModel, ParseEvent, XmlError, XmlEvent, event_models, read_xml, spec_read_xml};

verus! {

/// The identity of a locale: its language and, where it has them, its
/// script, territory and variant.
pub struct Identity {
    pub language: String,
    pub script: Option<String>,
    pub territory: Option<String>,
    pub variant: Option<String>,
}

/// What the generator keeps of a locale file.
pub struct Ldml {
    pub identity: Identity,
    pub locale_pattern: String,
    pub locale_separator: String,
    pub languages: TextMap<String>,
    pub territories: TextMap<String>,
    pub scripts: TextMap<String>,
    pub charlabels: TextMap<String>,
}

/// The model of what the generator keeps of a locale file.
pub struct LdmlModel {
    pub language: Seq<char>,
    pub script: Option<Seq<char>>,
    pub territory: Option<Seq<char>>,
    pub variant: Option<Seq<char>>,
    pub locale_pattern: Seq<char>,
    pub locale_separator: Seq<char>,
    pub languages: Map<Seq<char>, Seq<char>>,
    pub territories: Map<Seq<char>, Seq<char>>,
    pub scripts: Map<Seq<char>, Seq<char>>,
    pub charlabels: Map<Seq<char>, Seq<char>>,
}

impl Ldml {
    pub open spec fn model(&self) -> LdmlModel {
        LdmlModel {
            language: self.identity.language@,
            script: opt_view(self.identity.script),
            territory: opt_view(self.identity.territory),
            variant: opt_view(self.identity.variant),
            locale_pattern: self.locale_pattern@,
            locale_separator: self.locale_separator@,
            languages: string_map(self.languages@),
            territories: string_map(self.territories@),
            scripts: string_map(self.scripts@),
            charlabels: string_map(self.charlabels@),
        }
    }
}

/// The state of the reading: one part per listener.
pub struct LdmlState {
    pub language: Seq<char>,
    pub script: Option<Seq<char>>,
    pub territory: Option<Seq<char>>,
    pub variant: Option<Seq<char>>,
    pub locale_pattern: Seq<char>,
    pub locale_separator: Seq<char>,
    pub charlabels: TypeValueState,
    pub languages: TypeValueState,
    pub territories: TypeValueState,
    pub scripts: TypeValueState,
}

/// The element paths of the listeners, in order: the identity's language,
/// script, territory and variant; the locale pattern and separator; the
/// character labels; the names of languages, territories and scripts.
pub open spec fn ldml_paths() -> Seq<Seq<Seq<char>>> {
    seq![
        seq!["ldml"@, "identity"@, "language"@],
        seq!["ldml"@, "identity"@, "script"@],
        seq!["ldml"@, "identity"@, "territory"@],
        seq!["ldml"@, "identity"@, "variant"@],
        seq!["ldml"@, "localeDisplayNames"@, "localeDisplayPattern"@, "localePattern"@],
        seq!["ldml"@, "localeDisplayNames"@, "localeDisplayPattern"@, "localeSeparator"@],
        seq!["ldml"@, "characterLabels"@, "characterLabel"@],
        seq!["ldml"@, "localeDisplayNames"@, "languages"@, "language"@],
        seq!["ldml"@, "localeDisplayNames"@, "territories"@, "territory"@],
        seq!["ldml"@, "localeDisplayNames"@, "scripts"@, "script"@],
    ]
}

/// The `type` of an opening tag, which it must have.
pub open spec fn required_type(item: Emitted) -> Result<Option<Seq<char>>, XmlError> {
    match item {
        Emitted::Opened(attrs) => match attr_text(attrs, "type"@) {
            None => Err(XmlError::MissingAttribute),
            Some(t) => Ok(Some(t)),
        },
        Emitted::Content(_) => Ok(None),
    }
}

/// One step of the reading: the event goes to the listener `k`.
pub open spec fn ldml_step(st: LdmlState, k: int, item: Emitted) -> Result<LdmlState, XmlError> {
    if 0 <= k < 4 {
        match required_type(item) {
            Err(e) => Err(e),
            Ok(None) => Ok(st),
            Ok(Some(t)) => Ok(
                if k == 0 {
                    LdmlState { language: t, ..st }
                } else if k == 1 {
                    LdmlState { script: Some(t), ..st }
                } else if k == 2 {
                    LdmlState { territory: Some(t), ..st }
                } else {
                    LdmlState { variant: Some(t), ..st }
                },
            ),
        }
    } else if k == 4 || k == 5 {
        match item {
            Emitted::Content(t) => Ok(
                if k == 4 {
                    LdmlState { locale_pattern: t, ..st }
                } else {
                    LdmlState { locale_separator: t, ..st }
                },
            ),
            Emitted::Opened(_) => Ok(st),
        }
    } else if k == 6 {
        match type_value_step(st.charlabels, item, true, false) {
            Err(e) => Err(e),
            Ok(s) => Ok(LdmlState { charlabels: s, ..st }),
        }
    } else if k == 7 {
        match type_value_step(st.languages, item, true, false) {
            Err(e) => Err(e),
            Ok(s) => Ok(LdmlState { languages: s, ..st }),
        }
    } else if k == 8 {
        match type_value_step(st.territories, item, true, false) {
            Err(e) => Err(e),
            Ok(s) => Ok(LdmlState { territories: s, ..st }),
        }
    } else if k == 9 {
        match type_value_step(st.scripts, item, true, false) {
            Err(e) => Err(e),
            Ok(s) => Ok(LdmlState { scripts: s, ..st }),
        }
    } else {
        Ok(st)
    }
}

pub open spec fn empty_tv() -> TypeValueState {
    TypeValueState { typ: None, map: Map::empty() }
}

pub open spec fn ldml_upto(items: Seq<(int, Emitted)>, n: int) -> Result<LdmlState, XmlError>
    decreases n,
{
    if n <= 0 {
        Ok(
            LdmlState {
                language: seq![],
                script: None,
                territory: None,
                variant: None,
                locale_pattern: seq![],
                locale_separator: seq![],
                charlabels: empty_tv(),
                languages: empty_tv(),
                territories: empty_tv(),
                scripts: empty_tv(),
            },
        )
    } else {
        match ldml_upto(items, n - 1) {
            Err(e) => Err(e),
            Ok(st) => ldml_step(st, items[n - 1].0, items[n - 1].1),
        }
    }
}

proof fn lemma_ldml_err(items: Seq<(int, Emitted)>, i: int, n: int)
    requires
        0 <= i <= n,
        ldml_upto(items, i) is Err,
    ensures
        ldml_upto(items, n) == ldml_upto(items, i),
    decreases n - i,
{
    if i < n {
        lemma_ldml_err(items, i, n - 1);
    }
}

/// What a locale file's events give: the reading's final state, or the
/// error of the first event that a listener rejects, or `EmptyLanguage`
/// where the file names no language.
pub open spec fn ldml_of_events(events: Seq<EventModel>) -> Result<LdmlModel, XmlError> {
    match spec_multi(events, ldml_paths()) {
        Err(e) => Err(e),
        Ok(items) => match ldml_upto(items, items.len() as int) {
            Err(e) => Err(e),
            Ok(st) => if st.language.len() == 0 {
                Err(XmlError::EmptyLanguage)
            } else {
                Ok(
                    LdmlModel {
                        language: st.language,
                        script: st.script,
                        territory: st.territory,
                        variant: st.variant,
                        locale_pattern: st.locale_pattern,
                        locale_separator: st.locale_separator,
                        languages: st.languages.map,
                        territories: st.territories.map,
                        scripts: st.scripts.map,
                        charlabels: st.charlabels.map,
                    },
                )
            },
        },
    }
}

/// The element paths of the listeners.
pub fn ldml_paths_exec() -> (r: Vec<Vec<String>>)
    ensures
        path_views(r@) == ldml_paths(),
{
    let p0 = vec!["ldml".to_owned(), "identity".to_owned(), "language".to_owned()];
    let p1 = vec!["ldml".to_owned(), "identity".to_owned(), "script".to_owned()];
    let p2 = vec!["ldml".to_owned(), "identity".to_owned(), "territory".to_owned()];
    let p3 = vec!["ldml".to_owned(), "identity".to_owned(), "variant".to_owned()];
    let p4 = vec!["ldml".to_owned(), "localeDisplayNames".to_owned(), "localeDisplayPattern".to_owned(), "localePattern".to_owned()];
    let p5 = vec!["ldml".to_owned(), "localeDisplayNames".to_owned(), "localeDisplayPattern".to_owned(), "localeSeparator".to_owned()];
    let p6 = vec!["ldml".to_owned(), "characterLabels".to_owned(), "characterLabel".to_owned()];
    let p7 = vec!["ldml".to_owned(), "localeDisplayNames".to_owned(), "languages".to_owned(), "language".to_owned()];
    let p8 = vec!["ldml".to_owned(), "localeDisplayNames".to_owned(), "territories".to_owned(), "territory".to_owned()];
    let p9 = vec!["ldml".to_owned(), "localeDisplayNames".to_owned(), "scripts".to_owned(), "script".to_owned()];
    assert(views(p0@) =~= ldml_paths()[0]);
    assert(views(p1@) =~= ldml_paths()[1]);
    assert(views(p2@) =~= ldml_paths()[2]);
    assert(views(p3@) =~= ldml_paths()[3]);
    assert(views(p4@) =~= ldml_paths()[4]);
    assert(views(p5@) =~= ldml_paths()[5]);
    assert(views(p6@) =~= ldml_paths()[6]);
    assert(views(p7@) =~= ldml_paths()[7]);
    assert(views(p8@) =~= ldml_paths()[8]);
    assert(views(p9@) =~= ldml_paths()[9]);
    let r = vec![p0, p1, p2, p3, p4, p5, p6, p7, p8, p9];
    assert(path_views(r@) =~= ldml_paths());
    r
}

/// The listener of a `(type, text)` map, which passes over the tags that
/// have an `alt` attribute.
pub fn xml_attr_type_and_value(map: &mut TypeValues, item: &ParseEvent) -> (r: Result<(), XmlError>)
    ensures
        match type_value_step(old(map).model(), item.model(), true, false) {
            Ok(st) => r is Ok && final(map).model() == st,
            Err(e) => r == Err::<(), XmlError>(e),
        },
{
    map.step(item, true, false)
}

/// Whether an event can go to a listener that reads a `type`: an opening
/// tag must have one.
pub fn has_required_type(item: &ParseEvent) -> (r: bool)
    ensures
        r == required_type(item.model()) is Ok,
{
    match item {
        ParseEvent::Start(attrs) => attrs.contains_key("type"),
        ParseEvent::Text(_) => true,
    }
}

/// The listener of an optional part of the identity: an opening tag sets it
/// to its `type`, which it must have.
pub fn xml_single_type_optional(typ: &mut Option<String>, item: &ParseEvent)
    requires
        required_type(item.model()) is Ok,
    ensures
        match required_type(item.model()) {
            Ok(Some(t)) => opt_view(*final(typ)) == Some(t),
            _ => opt_view(*final(typ)) == opt_view(*old(typ)),
        },
{
    match item {
        ParseEvent::Start(attrs) => match attrs.get("type") {
            None => {},
            Some(t) => {
                *typ = Some(t.clone());
            },
        },
        ParseEvent::Text(_) => {},
    }
}

/// The state of the reading.
struct LdmlReading {
    language: String,
    script: Option<String>,
    territory: Option<String>,
    variant: Option<String>,
    locale_pattern: String,
    locale_separator: String,
    charlabels: TypeValues,
    languages: TypeValues,
    territories: TypeValues,
    scripts: TypeValues,
}

impl LdmlReading {
    spec fn model(&self) -> LdmlState {
        LdmlState {
            language: self.language@,
            script: opt_view(self.script),
            territory: opt_view(self.territory),
            variant: opt_view(self.variant),
            locale_pattern: self.locale_pattern@,
            locale_separator: self.locale_separator@,
            charlabels: self.charlabels.model(),
            languages: self.languages.model(),
            territories: self.territories.model(),
            scripts: self.scripts.model(),
        }
    }

    fn step(&mut self, k: usize, item: &ParseEvent) -> (r: Result<(), XmlError>)
        ensures
            match ldml_step(old(self).model(), k as int, item.model()) {
                Ok(st) => r is Ok && final(self).model() == st,
                Err(e) => r == Err::<(), XmlError>(e),
            },
    {
        if k == 0 {
            match item {
                ParseEvent::Start(attrs) => match attrs.get("type") {
                    None => Err(XmlError::MissingAttribute),
                    Some(t) => {
                        self.language = t.clone();
                        Ok(())
                    },
                },
                ParseEvent::Text(_) => Ok(()),
            }
        } else if k <= 3 {
            if !has_required_type(item) {
                return Err(XmlError::MissingAttribute);
            }
            if k == 1 {
                xml_single_type_optional(&mut self.script, item);
            } else if k == 2 {
                xml_single_type_optional(&mut self.territory, item);
            } else {
                xml_single_type_optional(&mut self.variant, item);
            }
            Ok(())
        } else if k == 4 {
            if let ParseEvent::Text(t) = item {
                self.locale_pattern = t.clone();
            }
            Ok(())
        } else if k == 5 {
            if let ParseEvent::Text(t) = item {
                self.locale_separator = t.clone();
            }
            Ok(())
        } else if k == 6 {
            xml_attr_type_and_value(&mut self.charlabels, item)
        } else if k == 7 {
            xml_attr_type_and_value(&mut self.languages, item)
        } else if k == 8 {
            xml_attr_type_and_value(&mut self.territories, item)
        } else if k == 9 {
            xml_attr_type_and_value(&mut self.scripts, item)
        } else {
            Ok(())
        }
    }
}

/// What the generator keeps of a locale file, from its events.
pub fn ldml_from_events(events: &Vec<XmlEvent>) -> (r: Result<Ldml, XmlError>)
    ensures
        match r {
            Ok(l) => ldml_of_events(event_models(events@)) == Ok::<LdmlModel, XmlError>(l.model()),
            Err(e) => ldml_of_events(event_models(events@)) == Err::<LdmlModel, XmlError>(e),
        },
{
    let paths = ldml_paths_exec();
    let items = match_events(events, &paths)?;
    let ghost ts = tagged_seq(items@);
    let mut st = LdmlReading {
        language: String::new(),
        script: None,
        territory: None,
        variant: None,
        locale_pattern: String::new(),
        locale_separator: String::new(),
        charlabels: TypeValues::new(),
        languages: TypeValues::new(),
        territories: TypeValues::new(),
        scripts: TypeValues::new(),
    };
    let mut i: usize = 0;
    while i < items.len()
        invariant
            i <= items.len(),
            ts == tagged_seq(items@),
            spec_multi(event_models(events@), ldml_paths()) == Ok::<Seq<(int, Emitted)>, XmlError>(ts),
            ldml_upto(ts, i as int) == Ok::<LdmlState, XmlError>(st.model()),
        decreases items.len() - i,
    {
        assert(ts[i as int] == (items@[i as int].0 as int, items@[i as int].1.model()));
        match st.step(items[i].0, &items[i].1) {
            Ok(()) => {},
            Err(e) => {
                proof {
                    lemma_ldml_err(ts, i + 1, ts.len() as int);
                }
                return Err(e);
            },
        }
        i = i + 1;
    }
    if st.language.as_str().is_empty() {
        return Err(XmlError::EmptyLanguage);
    }
    Ok(
        Ldml {
            identity: Identity {
                language: st.language,
                script: st.script,
                territory: st.territory,
                variant: st.variant,
            },
            locale_pattern: st.locale_pattern,
            locale_separator: st.locale_separator,
            languages: st.languages.map,
            territories: st.territories.map,
            scripts: st.scripts.map,
            charlabels: st.charlabels.map,
        },
    )
}

/// What the generator keeps of the locale file `doc`.
pub open spec fn spec_ldml(doc: Seq<char>) -> Result<LdmlModel, XmlError> {
    match spec_read_xml(doc) {
        Err(e) => Err(e),
        Ok(evs) => ldml_of_events(evs),
    }
}

/// What the generator keeps of the locale file `s`, or the error that
/// stops its reading.
fn read_ldml(s: &str) -> (r: Result<Ldml, XmlError>)
    ensures
        match r {
            Ok(l) => spec_ldml(s@) == Ok::<LdmlModel, XmlError>(l.model()),
            Err(e) => spec_ldml(s@) == Err::<LdmlModel, XmlError>(e),
        },
{
    let events = read_xml(s)?;
    ldml_from_events(&events)
}

/// What the generator keeps of the locale file `s`: its identity, locale
/// display pattern and separator, and the names of languages, territories,
/// scripts and character categories. The file must be well formed, give
/// each element that is read a `type`, and name its language.
pub fn parse_ldml(s: &str) -> (r: Ldml)
    requires
        spec_ldml(s@) is Ok,
    ensures
        spec_ldml(s@) == Ok::<LdmlModel, XmlError>(r.model()),
{
    match read_ldml(s) {
        Ok(l) => l,
        Err(_) => {
            assert(false);
            Ldml {
                identity: Identity {
                    language: String::new(),
                    script: None,
                    territory: None,
                    variant: None,
                },
                locale_pattern: String::new(),
                locale_separator: String::new(),
                languages: TextMap::new(),
                territories: TextMap::new(),
                scripts: TextMap::new(),
                charlabels: TextMap::new(),
            }
        },
    }
}

/// The locale file `s` read as `parse_ldml` reads it, or the error for
/// which it cannot be: the first that stops the reading, or
/// `EmptyLanguage` where the file names no language.
pub fn parse_ldml_checked(s: &str) -> (r: Result<Ldml, XmlError>)
    ensures
        match r {
            Ok(l) => spec_ldml(s@) == Ok::<LdmlModel, XmlError>(l.model()),
            Err(e) => spec_ldml(s@) == Err::<LdmlModel, XmlError>(e),
        },
{
    match read_ldml(s) {
        Err(e) => Err(e),
        Ok(_) => Ok(parse_ldml(s)),
    }
}

/// The `i`-th of the items is an opening tag for the listener `k`.
pub open spec fn opened_at(items: Seq<(int, Emitted)>, i: int, k: int) -> bool {
    0 <= i < items.len() && items[i].0 == k && items[i].1 is Opened
}

/// The `i`-th of the items is the last opening tag for the listener `k`
/// among the first `n`.
pub open spec fn last_opened(items: Seq<(int, Emitted)>, i: int, k: int, n: int) -> bool {
    opened_at(items, i, k) && i < n && forall|j: int| i < j < n ==> !#[trigger] opened_at(items, j, k)
}

/// The part of the identity that the listener `k` (of the first four)
/// reads: the language, the script, the territory, the variant.
pub open spec fn identity_value(l: LdmlModel, k: int) -> Option<Seq<char>> {
    if k == 0 {
        Some(l.language)
    } else if k == 1 {
        l.script
    } else if k == 2 {
        l.territory
    } else {
        l.variant
    }
}

pub open spec fn state_identity(st: LdmlState, k: int) -> Option<Seq<char>> {
    if k == 0 {
        Some(st.language)
    } else if k == 1 {
        st.script
    } else if k == 2 {
        st.territory
    } else {
        st.variant
    }
}

proof fn lemma_ldml_prefix_ok(items: Seq<(int, Emitted)>, n: int)
    requires
        n > 0,
        ldml_upto(items, n) is Ok,
    ensures
        ldml_upto(items, n - 1) is Ok,
{
}

proof fn lemma_identity_step(st: LdmlState, kk: int, item: Emitted, k: int)
    requires
        0 <= k < 4,
        ldml_step(st, kk, item) is Ok,
    ensures
        (kk == k && item is Opened) ==> state_identity(ldml_step(st, kk, item)->Ok_0, k) == attr_text(
            item->Opened_0,
            "type"@,
        ),
        !(kk == k && item is Opened) ==> state_identity(ldml_step(st, kk, item)->Ok_0, k)
            == state_identity(st, k),
{
}

proof fn lemma_identity_last(items: Seq<(int, Emitted)>, n: int, k: int, i: int)
    requires
        0 <= k < 4,
        0 <= n <= items.len(),
        ldml_upto(items, n) is Ok,
    ensures
        last_opened(items, i, k, n) ==> state_identity(ldml_upto(items, n)->Ok_0, k) == attr_text(
            items[i].1->Opened_0,
            "type"@,
        ),
        (forall|j: int| 0 <= j < n ==> !#[trigger] opened_at(items, j, k)) ==> state_identity(
            ldml_upto(items, n)->Ok_0,
            k,
        ) == state_identity(ldml_upto(items, 0)->Ok_0, k),
    decreases n,
{
    if n > 0 {
        lemma_ldml_prefix_ok(items, n);
        lemma_identity_last(items, n - 1, k, i);
        let st = ldml_upto(items, n - 1)->Ok_0;
        lemma_identity_step(st, items[n - 1].0, items[n - 1].1, k);
        if last_opened(items, i, k, n) && i < n - 1 {
            assert(!opened_at(items, n - 1, k));
            assert(last_opened(items, i, k, n - 1));
        }
        if forall|j: int| 0 <= j < n ==> !#[trigger] opened_at(items, j, k) {
            assert(!opened_at(items, n - 1, k));
        }
    }
}

/// A locale file's identity is read from the last tag of each of its
/// parts: where the items that reach the listeners of the file hold an
/// opening tag `<language>`, `<script>`, `<territory>` or `<variant>` under
/// `ldml/identity` (`k` from 0 to 3), the part is the `type` of the last
/// such tag; a script, territory or variant without any such tag is absent.
pub proof fn law_identity_from_last_tag(doc: Seq<char>, k: int, i: int)
    requires
        0 <= k < 4,
    ensures
        spec_ldml(doc) matches Ok(l) ==> {
            &&& spec_multi_doc(doc, ldml_paths()) is Ok
            &&& {
                let items = spec_multi_doc(doc, ldml_paths())->Ok_0;
                &&& last_opened(items, i, k, items.len() as int) ==> identity_value(l, k)
                    == attr_text(items[i].1->Opened_0, "type"@)
                &&& (k > 0 && forall|j: int|
                    0 <= j < items.len() ==> !#[trigger] opened_at(items, j, k)) ==> identity_value(
                    l,
                    k,
                ) is None
            }
        },
{
    if let Ok(evs) = spec_read_xml(doc) {
        if let Ok(items) = spec_multi(evs, ldml_paths()) {
            if ldml_upto(items, items.len() as int) is Ok {
                lemma_identity_last(items, items.len() as int, k, i);
            }
        }
    }
}

} // verus!
