//! A listener that collects, for elements such as
//! `<language type="fr">French</language>`, the map from the `type`
//! attribute to the element's text.
use vstd::prelude::*;
use crate::table::TextMap;
use crate::text::views;
use crate::xml::{Emitted, EventModel, ParseEvent, XmlError, XmlEvent, event_models, spec_read_xml, spec_stream, emitted_seq};

verus! {

/// The text values of a map of strings.
pub open spec fn string_map(m: Map<Seq<char>, String>) -> Map<Seq<char>, Seq<char>> {
    m.map_values(|s: String| s@)
}

/// The text of an attribute, if the tag has it.
pub open spec fn attr_text(attrs: Map<Seq<char>, Seq<char>>, key: Seq<char>) -> Option<Seq<char>> {
    if attrs.dom().contains(key) {
        Some(attrs[key])
    } else {
        None
    }
}

/// The text that marks a value as inherited from the parent locale.
pub open spec fn upper_mark() -> Seq<char> {
    seq!['\u{2191}', '\u{2191}', '\u{2191}']
}

/// The state of the listener: the `type` of the element that is waiting for
/// its text, and the values so far.
pub struct TypeValueState {
    pub typ: Option<Seq<char>>,
    pub map: Map<Seq<char>, Seq<char>>,
}

/// One step of the listener. An opening tag sets the waiting `type` (tags
/// with an `alt` attribute are passed over where `skip_alt` holds; a tag
/// without `type` is an error); a text is stored under the waiting `type`,
/// which it consumes (the text `↑↑↑` is not stored where `skip_upper`
/// holds).
pub open spec fn type_value_step(
    st: TypeValueState,
    item: Emitted,
    skip_alt: bool,
    skip_upper: bool,
) -> Result<TypeValueState, XmlError> {
    match item {
        Emitted::Opened(attrs) => {
            if skip_alt && attrs.dom().contains("alt"@) {
                Ok(st)
            } else {
                match attr_text(attrs, "type"@) {
                    None => Err(XmlError::MissingAttribute),
                    Some(t) => Ok(TypeValueState { typ: Some(t), map: st.map }),
                }
            }
        },
        Emitted::Content(text) => match st.typ {
            None => Ok(st),
            Some(t) => Ok(
                TypeValueState {
                    typ: None,
                    map: if skip_upper && text == upper_mark() {
                        st.map
                    } else {
                        st.map.insert(t, text)
                    },
                },
            ),
        },
    }
}

/// The state after the first `n` events.
pub open spec fn type_values_upto(
    items: Seq<Emitted>,
    skip_alt: bool,
    skip_upper: bool,
    n: int,
) -> Result<TypeValueState, XmlError>
    decreases n,
{
    if n <= 0 {
        Ok(TypeValueState { typ: None, map: Map::empty() })
    } else {
        match type_values_upto(items, skip_alt, skip_upper, n - 1) {
            Err(e) => Err(e),
            Ok(st) => type_value_step(st, items[n - 1], skip_alt, skip_upper),
        }
    }
}

/// The map that the listener collects from a whole list of events.
pub open spec fn spec_type_values(items: Seq<Emitted>, skip_alt: bool, skip_upper: bool) -> Result<
    Map<Seq<char>, Seq<char>>,
    XmlError,
> {
    match type_values_upto(items, skip_alt, skip_upper, items.len() as int) {
        Err(e) => Err(e),
        Ok(st) => Ok(st.map),
    }
}

pub proof fn lemma_type_values_err(
    items: Seq<Emitted>,
    skip_alt: bool,
    skip_upper: bool,
    i: int,
    n: int,
)
    requires
        0 <= i <= n,
        type_values_upto(items, skip_alt, skip_upper, i) is Err,
    ensures
        type_values_upto(items, skip_alt, skip_upper, n) == type_values_upto(
            items,
            skip_alt,
            skip_upper,
            i,
        ),
    decreases n - i,
{
    if i < n {
        lemma_type_values_err(items, skip_alt, skip_upper, i, n - 1);
    }
}

/// The listener's state.
pub struct TypeValues {
    pub typ: Option<String>,
    pub map: TextMap<String>,
}

impl TypeValues {
    pub open spec fn model(&self) -> TypeValueState {
        TypeValueState {
            typ: match self.typ {
                Some(t) => Some(t@),
                None => None,
            },
            map: string_map(self.map@),
        }
    }

    /// No element waiting, no values.
    pub fn new() -> (r: Self)
        ensures
            r.model() == (TypeValueState { typ: None, map: Map::empty() }),
    {
        let r = TypeValues { typ: None, map: TextMap::new() };
        assert(string_map(r.map@) =~= Map::empty());
        r
    }

    /// One step of the listener.
    pub fn step(&mut self, item: &ParseEvent, skip_alt: bool, skip_upper: bool) -> (r: Result<
        (),
        XmlError,
    >)
        ensures
            match type_value_step(old(self).model(), item.model(), skip_alt, skip_upper) {
                Ok(st) => r is Ok && final(self).model() == st,
                Err(e) => r == Err::<(), XmlError>(e),
            },
    {
        match item {
            ParseEvent::Start(attrs) => {
                if skip_alt && attrs.contains_key("alt") {
                    return Ok(());
                }
                match attrs.get("type") {
                    None => Err(XmlError::MissingAttribute),
                    Some(t) => {
                        self.typ = Some(t.clone());
                        Ok(())
                    },
                }
            },
            ParseEvent::Text(text) => {
                match self.typ.take() {
                    None => Ok(()),
                    Some(t) => {
                        if skip_upper && crate::text::same_text(text.as_str(), "\u{2191}\u{2191}\u{2191}") {
                            proof {
                                reveal_strlit("\u{2191}\u{2191}\u{2191}");
                                assert("\u{2191}\u{2191}\u{2191}"@ =~= upper_mark());
                            }
                            Ok(())
                        } else {
                            proof {
                                reveal_strlit("\u{2191}\u{2191}\u{2191}");
                                assert("\u{2191}\u{2191}\u{2191}"@ =~= upper_mark());
                            }
                            let ghost m0 = self.map@;
                            self.map.insert(t, text.clone());
                            assert(string_map(self.map@) =~= string_map(m0).insert(t@, text@));
                            Ok(())
                        }
                    },
                }
            },
        }
    }
}

/// The map that the listener collects from the events `items`.
pub fn collect_type_values(items: &Vec<ParseEvent>, skip_alt: bool, skip_upper: bool) -> (r: Result<
    TextMap<String>,
    XmlError,
>)
    ensures
        match r {
            Ok(m) => spec_type_values(emitted_seq(items@), skip_alt, skip_upper) == Ok::<
                Map<Seq<char>, Seq<char>>,
                XmlError,
            >(string_map(m@)),
            Err(e) => spec_type_values(emitted_seq(items@), skip_alt, skip_upper) == Err::<
                Map<Seq<char>, Seq<char>>,
                XmlError,
            >(e),
        },
{
    let ghost es = emitted_seq(items@);
    let mut st = TypeValues::new();
    let mut i: usize = 0;
    while i < items.len()
        invariant
            i <= items.len(),
            es == emitted_seq(items@),
            type_values_upto(es, skip_alt, skip_upper, i as int) == Ok::<TypeValueState, XmlError>(
                st.model(),
            ),
        decreases items.len() - i,
    {
        assert(es[i as int] == items@[i as int].model());
        match st.step(&items[i], skip_alt, skip_upper) {
            Ok(()) => {},
            Err(e) => {
                proof {
                    lemma_type_values_err(es, skip_alt, skip_upper, i + 1, es.len() as int);
                }
                return Err(e);
            },
        }
        i = i + 1;
    }
    Ok(st.map)
}

/// The element path of the language names of a locale file.
pub open spec fn language_path() -> Seq<Seq<char>> {
    seq!["ldml"@, "localeDisplayNames"@, "languages"@, "language"@]
}

/// The element path of the character labels of a locale file.
pub open spec fn charlabel_path() -> Seq<Seq<char>> {
    seq!["ldml"@, "characterLabels"@, "characterLabel"@]
}

pub fn language_path_exec() -> (r: Vec<String>)
    ensures
        views(r@) == language_path(),
{
    let r = vec![
        "ldml".to_owned(),
        "localeDisplayNames".to_owned(),
        "languages".to_owned(),
        "language".to_owned(),
    ];
    assert(views(r@) =~= language_path());
    r
}

pub fn charlabel_path_exec() -> (r: Vec<String>)
    ensures
        views(r@) == charlabel_path(),
{
    let r = vec!["ldml".to_owned(), "characterLabels".to_owned(), "characterLabel".to_owned()];
    assert(views(r@) =~= charlabel_path());
    r
}

/// The map from `type` to text of the elements at `path` in a document's
/// events.
pub open spec fn spec_path_values(events: Seq<EventModel>, path: Seq<Seq<char>>, skip_alt: bool, skip_upper: bool) -> Result<
    Map<Seq<char>, Seq<char>>,
    XmlError,
> {
    match spec_stream(events, path) {
        Err(e) => Err(e),
        Ok(items) => spec_type_values(items, skip_alt, skip_upper),
    }
}

/// The map from `type` to text of the elements at `path` in the document
/// `doc`.
pub open spec fn spec_path_values_doc(
    doc: Seq<char>,
    path: Seq<Seq<char>>,
    skip_alt: bool,
    skip_upper: bool,
) -> Result<Map<Seq<char>, Seq<char>>, XmlError> {
    match spec_read_xml(doc) {
        Err(e) => Err(e),
        Ok(evs) => spec_path_values(evs, path, skip_alt, skip_upper),
    }
}

/// The map from `type` to text of the elements at `path`.
pub fn path_values(events: &Vec<XmlEvent>, path: &Vec<String>, skip_alt: bool, skip_upper: bool) -> (r: Result<
    TextMap<String>,
    XmlError,
>)
    ensures
        match r {
            Ok(m) => spec_path_values(event_models(events@), views(path@), skip_alt, skip_upper) == Ok::<
                Map<Seq<char>, Seq<char>>,
                XmlError,
            >(string_map(m@)),
            Err(e) => spec_path_values(event_models(events@), views(path@), skip_alt, skip_upper) == Err::<
                Map<Seq<char>, Seq<char>>,
                XmlError,
            >(e),
        },
{
    let items = crate::xml::stream_events(events, path)?;
    collect_type_values(&items, skip_alt, skip_upper)
}

} // verus!
