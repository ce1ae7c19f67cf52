//! The spoken names of the emojis of one language, as the table generator
//! reads them from the CLDR annotations files.
use vstd::prelude::*;
use crate::annotations::{annotation_path, annotation_path_exec};
use crate::build::xml::{spec_single, stream_single};
use crate::collect::{attr_text, string_map};
use crate::table::TextMap;
use crate::text::views;
use crate::xml::{Emitted, EventModel, ParseEvent, XmlError, XmlEvent, emitted_seq, event_models, read_xml, spec_read_xml};

verus! {

/// The state of the reading: the emoji waiting for its spoken name, and
/// the names so far.
pub struct TtsState {
    pub tts: Option<Seq<char>>,
    pub map: Map<Seq<char>, Seq<char>>,
}

/// One step of the reading: an opening tag (which must name its emoji,
/// `cp`) of `type` `tts` makes its emoji wait for its spoken name; a text
/// is the spoken name of the waiting emoji.
pub open spec fn tts_step(st: TtsState, item: Emitted) -> Result<TtsState, XmlError> {
    match item {
        Emitted::Opened(attrs) => match attr_text(attrs, "cp"@) {
            None => Err(XmlError::MissingAttribute),
            Some(cp) => if attr_text(attrs, "type"@) == Some("tts"@) {
                Ok(TtsState { tts: Some(cp), map: st.map })
            } else {
                Ok(st)
            },
        },
        Emitted::Content(text) => match st.tts {
            Some(cp) => Ok(TtsState { tts: None, map: st.map.insert(cp, text) }),
            None => Ok(st),
        },
    }
}

pub open spec fn tts_upto(items: Seq<Emitted>, n: int) -> Result<TtsState, XmlError>
    decreases n,
{
    if n <= 0 {
        Ok(TtsState { tts: None, map: Map::empty() })
    } else {
        match tts_upto(items, n - 1) {
            Err(e) => Err(e),
            Ok(st) => tts_step(st, items[n - 1]),
        }
    }
}

proof fn lemma_tts_err(items: Seq<Emitted>, i: int, n: int)
    requires
        0 <= i <= n,
        tts_upto(items, i) is Err,
    ensures
        tts_upto(items, n) == tts_upto(items, i),
    decreases n - i,
{
    if i < n {
        lemma_tts_err(items, i, n - 1);
    }
}

/// The spoken names that an annotations file's events give.
pub open spec fn tts_of_events(events: Seq<EventModel>) -> Result<
    Map<Seq<char>, Seq<char>>,
    XmlError,
> {
    match spec_single(events, annotation_path()) {
        Err(e) => Err(e),
        Ok(items) => match tts_upto(items, items.len() as int) {
            Err(e) => Err(e),
            Ok(st) => Ok(st.map),
        },
    }
}

/// The spoken names that the annotations file `doc` gives.
pub open spec fn spec_lang_annotations(doc: Seq<char>) -> Result<
    Map<Seq<char>, Seq<char>>,
    XmlError,
> {
    match spec_read_xml(doc) {
        Err(e) => Err(e),
        Ok(evs) => tts_of_events(evs),
    }
}

/// The spoken name of each emoji among an annotations file's events.
pub fn lang_annotations_from_events(events: &Vec<XmlEvent>) -> (r: Result<
    TextMap<String>,
    XmlError,
>)
    ensures
        match r {
            Ok(m) => tts_of_events(event_models(events@)) == Ok::<
                Map<Seq<char>, Seq<char>>,
                XmlError,
            >(string_map(m@)),
            Err(e) => tts_of_events(event_models(events@)) == Err::<
                Map<Seq<char>, Seq<char>>,
                XmlError,
            >(e),
        },
{
    let path = annotation_path_exec();
    let items = stream_single(events, &path)?;
    let ghost es = emitted_seq(items@);
    let mut tts: Option<String> = None;
    let mut map: TextMap<String> = TextMap::new();
    assert(string_map(map@) =~= Map::empty());
    let mut i: usize = 0;
    while i < items.len()
        invariant
            i <= items.len(),
            es == emitted_seq(items@),
            spec_single(event_models(events@), annotation_path()) == Ok::<Seq<Emitted>, XmlError>(es),
            tts_upto(es, i as int) == Ok::<TtsState, XmlError>(
                TtsState {
                    tts: match tts {
                        Some(t) => Some(t@),
                        None => None,
                    },
                    map: string_map(map@),
                },
            ),
        decreases items.len() - i,
    {
        assert(es[i as int] == items@[i as int].model());
        match &items[i] {
            ParseEvent::Start(attrs) => {
                match attrs.get("cp") {
                    None => {
                        proof {
                            lemma_tts_err(es, i + 1, es.len() as int);
                        }
                        return Err(XmlError::MissingAttribute);
                    },
                    Some(cp) => {
                        let is_tts = match attrs.get("type") {
                            Some(t) => crate::text::same_text(t.as_str(), "tts"),
                            None => false,
                        };
                        if is_tts {
                            tts = Some(cp.clone());
                        }
                    },
                }
            },
            ParseEvent::Text(text) => {
                match tts.take() {
                    Some(cp) => {
                        let ghost m0 = map@;
                        map.insert(cp, text.clone());
                        assert(string_map(map@) =~= string_map(m0).insert(cp@, text@));
                    },
                    None => {},
                }
            },
        }
        i = i + 1;
    }
    Ok(map)
}

/// What `parse_annotations` reads of the annotations file `s`, or the error that
/// stops its reading.
fn parse_annotations_result(s: &str) -> (r: Result<TextMap<String>, XmlError>)
    ensures
        match r {
            Ok(m) => spec_lang_annotations(s@) == Ok::<Map<Seq<char>, Seq<char>>, XmlError>(string_map(m@)),
            Err(e) => spec_lang_annotations(s@) == Err::<Map<Seq<char>, Seq<char>>, XmlError>(e),
        },
{
    let events = read_xml(s)?;
    lang_annotations_from_events(&events)
}

/// The spoken name of each emoji of the annotations file `s`: the text of
/// each `<annotation>` element under `ldml/annotations` whose `type` is
/// `tts`, under the emoji of its `cp` attribute. The file must be well
/// formed and give each of these elements a `cp`.
pub fn parse_annotations(s: &str) -> (r: TextMap<String>)
    requires
        spec_lang_annotations(s@) is Ok,
    ensures
        spec_lang_annotations(s@) == Ok::<Map<Seq<char>, Seq<char>>, XmlError>(string_map(r@)),
{
    match parse_annotations_result(s) {
        Ok(m) => m,
        Err(_) => {
            assert(false);
            TextMap::new()
        },
    }
}

/// The annotations file `s` read as `parse_annotations` reads it, or the error that
/// stops the reading.
pub fn parse_annotations_checked(s: &str) -> (r: Result<TextMap<String>, XmlError>)
    ensures
        match r {
            Ok(m) => spec_lang_annotations(s@) == Ok::<Map<Seq<char>, Seq<char>>, XmlError>(string_map(m@)),
            Err(e) => spec_lang_annotations(s@) == Err::<Map<Seq<char>, Seq<char>>, XmlError>(e),
        },
{
    match parse_annotations_result(s) {
        Err(e) => Err(e),
        Ok(_) => Ok(parse_annotations(s)),
    }
}

/// The spoken names of one language: those of its annotations file `a`,
/// replaced where its derived annotations file `d` names the same emoji.
pub open spec fn lang_tts(a: Seq<char>, d: Seq<char>) -> Result<Map<Seq<char>, Seq<char>>, XmlError> {
    match spec_lang_annotations(a) {
        Err(e) => Err(e),
        Ok(m1) => match spec_lang_annotations(d) {
            Err(e) => Err(e),
            Ok(m2) => Ok(m1.union_prefer_right(m2)),
        },
    }
}

/// The spoken names of the first `n` languages, by language (a later
/// entry of the same language wins).
pub open spec fn tts_table(
    langs: Seq<Seq<char>>,
    annot: Seq<Seq<char>>,
    derived: Seq<Seq<char>>,
    n: int,
) -> Map<Seq<char>, Map<Seq<char>, Seq<char>>>
    decreases n,
{
    if n <= 0 {
        Map::empty()
    } else {
        tts_table(langs, annot, derived, n - 1).insert(
            langs[n - 1],
            lang_tts(annot[n - 1], derived[n - 1])->Ok_0,
        )
    }
}

/// The files of the first `n` languages parse.
pub open spec fn tts_parse(annot: Seq<Seq<char>>, derived: Seq<Seq<char>>, n: int) -> bool {
    forall|i: int| 0 <= i < n ==> (#[trigger] lang_tts(annot[i], derived[i])) is Ok
}

/// The models of a map of maps of strings.
pub open spec fn nested_map(m: Map<Seq<char>, TextMap<String>>) -> Map<
    Seq<char>,
    Map<Seq<char>, Seq<char>>,
> {
    m.map_values(|t: TextMap<String>| string_map(t@))
}

/// The spoken names of each language, or the error of the first file that
/// does not parse.
fn read_annotations(langs: &Vec<String>, annot: &Vec<String>, derived: &Vec<String>) -> (r: Result<
    TextMap<TextMap<String>>,
    XmlError,
>)
    requires
        langs.len() == annot.len(),
        langs.len() == derived.len(),
    ensures
        match r {
            Ok(m) => tts_parse(views(annot@), views(derived@), langs.len() as int) && nested_map(
                m@,
            ) == tts_table(views(langs@), views(annot@), views(derived@), langs.len() as int),
            Err(e) => exists|i: int|
                0 <= i < langs.len() && tts_parse(views(annot@), views(derived@), i) && lang_tts(
                    annot@[i]@,
                    derived@[i]@,
                ) == Err::<Map<Seq<char>, Seq<char>>, XmlError>(e),
        },
{
    let ghost ls = views(langs@);
    let ghost av = views(annot@);
    let ghost dv = views(derived@);
    let mut annotations: TextMap<TextMap<String>> = TextMap::new();
    assert(nested_map(annotations@) =~= Map::empty());
    let mut i: usize = 0;
    while i < langs.len()
        invariant
            i <= langs.len() == annot.len() == derived.len(),
            ls == views(langs@),
            av == views(annot@),
            dv == views(derived@),
            tts_parse(av, dv, i as int),
            nested_map(annotations@) == tts_table(ls, av, dv, i as int),
        decreases langs.len() - i,
    {
        assert(av[i as int] == annot@[i as int]@);
        assert(dv[i as int] == derived@[i as int]@);
        assert(ls[i as int] == langs@[i as int]@);
        let mut annot_lang = match parse_annotations_checked(annot[i].as_str()) {
            Ok(m) => m,
            Err(e) => return Err(e),
        };
        let annot_derived = match parse_annotations_checked(derived[i].as_str()) {
            Ok(m) => m,
            Err(e) => return Err(e),
        };
        let ghost m1 = annot_lang@;
        let ghost m2 = annot_derived@;
        annot_lang.extend(annot_derived);
        assert(string_map(annot_lang@) =~= string_map(m1).union_prefer_right(string_map(m2)));
        let ghost n0 = annotations@;
        annotations.insert(langs[i].clone(), annot_lang);
        proof {
            assert(nested_map(annotations@) =~= nested_map(n0).insert(
                ls[i as int],
                string_map(annot_lang@),
            ));
            assert forall|j: int| 0 <= j < i + 1 implies (#[trigger] lang_tts(av[j], dv[j])) is Ok by {
                if j < i {
                    assert(tts_parse(av, dv, i as int));
                }
            }
        }
        i = i + 1;
    }
    Ok(annotations)
}

/// The spoken names of each language: for `langs[i]`, those of its
/// annotations file `annot[i]`, replaced where its derived annotations file
/// `derived[i]` names the same emoji. Each file must parse.
pub fn load_annotations(langs: &Vec<String>, annot: &Vec<String>, derived: &Vec<String>) -> (r:
    TextMap<TextMap<String>>)
    requires
        langs.len() == annot.len(),
        langs.len() == derived.len(),
        tts_parse(views(annot@), views(derived@), langs.len() as int),
    ensures
        nested_map(r@) == tts_table(views(langs@), views(annot@), views(derived@), langs.len() as int),
{
    match read_annotations(langs, annot, derived) {
        Ok(m) => m,
        Err(e) => {
            proof {
                let i = choose|i: int|
                    0 <= i < langs.len() && tts_parse(views(annot@), views(derived@), i) && lang_tts(
                        annot@[i]@,
                        derived@[i]@,
                    ) == Err::<Map<Seq<char>, Seq<char>>, XmlError>(e);
                assert(views(annot@)[i] == annot@[i]@);
                assert(views(derived@)[i] == derived@[i]@);
            }
            TextMap::new()
        },
    }
}

/// The spoken names of each language as `load_annotations` gives them, or
/// the error of the first file that does not parse.
pub fn load_annotations_checked(langs: &Vec<String>, annot: &Vec<String>, derived: &Vec<String>) -> (r:
    Result<TextMap<TextMap<String>>, XmlError>)
    requires
        langs.len() == annot.len(),
        langs.len() == derived.len(),
    ensures
        match r {
            Ok(m) => tts_parse(views(annot@), views(derived@), langs.len() as int) && nested_map(
                m@,
            ) == tts_table(views(langs@), views(annot@), views(derived@), langs.len() as int),
            Err(e) => exists|i: int|
                0 <= i < langs.len() && tts_parse(views(annot@), views(derived@), i) && lang_tts(
                    annot@[i]@,
                    derived@[i]@,
                ) == Err::<Map<Seq<char>, Seq<char>>, XmlError>(e),
        },
{
    match read_annotations(langs, annot, derived) {
        Err(e) => Err(e),
        Ok(_) => Ok(load_annotations(langs, annot, derived)),
    }
}

} // verus!
