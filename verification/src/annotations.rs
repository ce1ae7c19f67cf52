//! The annotations of each emoji in one locale, read from its CLDR
//! annotations file: `<annotation cp="😀" type="tts">grinning face</annotation>`
//! gives the spoken name, `<annotation cp="😀">face | grin</annotation>` the
//! keywords, separated by `|`.
use vstd::prelude::*;
use crate::collect::attr_text;
use crate::table::TextMap;
use crate::text::{chars_of, opt_view, split_on, split_seq, trim_seq, trim_string, views};
use crate::xml::{
    Emitted, EventModel, ParseEvent, XmlError, XmlEvent, emitted_seq, event_models, read_xml,
    spec_read_xml, spec_stream, stream_events,
};

verus! {

/// The annotations of one emoji.
pub struct Annotation {
    pub tts: String,
    pub notes: Vec<String>,
}

/// The model of the annotations of one emoji.
pub struct AnnotationModel {
    pub tts: Seq<char>,
    pub notes: Seq<Seq<char>>,
}

impl Annotation {
    pub open spec fn model(&self) -> AnnotationModel {
        AnnotationModel { tts: self.tts@, notes: views(self.notes@) }
    }
}

pub open spec fn ann_map(m: Map<Seq<char>, Annotation>) -> Map<Seq<char>, AnnotationModel> {
    m.map_values(|a: Annotation| a.model())
}

/// The annotations of an emoji that has none yet.
pub open spec fn no_annotation() -> AnnotationModel {
    AnnotationModel { tts: seq![], notes: seq![] }
}

pub open spec fn ann_or_default(m: Map<Seq<char>, AnnotationModel>, cp: Seq<char>) -> AnnotationModel {
    if m.dom().contains(cp) {
        m[cp]
    } else {
        no_annotation()
    }
}

/// The keywords of a keyword text: its parts between `|`, trimmed.
pub open spec fn note_parts(text: Seq<char>) -> Seq<Seq<char>> {
    split_seq(text, seq!['|']).map_values(|p: Seq<char>| trim_seq(p))
}

/// The state of the reading: the emoji waiting for its keywords, the emoji
/// waiting for its spoken name, and the annotations so far.
pub struct AnnState {
    pub annot: Option<Seq<char>>,
    pub tts: Option<Seq<char>>,
    pub map: Map<Seq<char>, AnnotationModel>,
}

/// One step of the reading. An opening tag names the emoji (`cp`, which it
/// must have) that waits for its spoken name (where `type` is `tts`) or its
/// keywords; a text goes to the emoji waiting for its spoken name if there
/// is one, else to the one waiting for keywords, which are added to those it
/// has.
pub open spec fn ann_step(st: AnnState, item: Emitted) -> Result<AnnState, XmlError> {
    match item {
        Emitted::Opened(attrs) => match attr_text(attrs, "cp"@) {
            None => Err(XmlError::MissingAttribute),
            Some(cp) => if attr_text(attrs, "type"@) == Some("tts"@) {
                Ok(AnnState { annot: st.annot, tts: Some(cp), map: st.map })
            } else {
                Ok(AnnState { annot: Some(cp), tts: st.tts, map: st.map })
            },
        },
        Emitted::Content(text) => match st.tts {
            Some(cp) => Ok(
                AnnState {
                    annot: st.annot,
                    tts: None,
                    map: st.map.insert(
                        cp,
                        AnnotationModel { tts: text, notes: ann_or_default(st.map, cp).notes },
                    ),
                },
            ),
            None => match st.annot {
                Some(cp) => Ok(
                    AnnState {
                        annot: None,
                        tts: None,
                        map: st.map.insert(
                            cp,
                            AnnotationModel {
                                tts: ann_or_default(st.map, cp).tts,
                                notes: ann_or_default(st.map, cp).notes + note_parts(text),
                            },
                        ),
                    },
                ),
                None => Ok(st),
            },
        },
    }
}

pub open spec fn ann_upto(items: Seq<Emitted>, n: int) -> Result<AnnState, XmlError>
    decreases n,
{
    if n <= 0 {
        Ok(AnnState { annot: None, tts: None, map: Map::empty() })
    } else {
        match ann_upto(items, n - 1) {
            Err(e) => Err(e),
            Ok(st) => ann_step(st, items[n - 1]),
        }
    }
}

proof fn lemma_ann_err(items: Seq<Emitted>, i: int, n: int)
    requires
        0 <= i <= n,
        ann_upto(items, i) is Err,
    ensures
        ann_upto(items, n) == ann_upto(items, i),
    decreases n - i,
{
    if i < n {
        lemma_ann_err(items, i, n - 1);
    }
}

/// The element path of the annotations.
pub open spec fn annotation_path() -> Seq<Seq<char>> {
    seq!["ldml"@, "annotations"@, "annotation"@]
}

pub fn annotation_path_exec() -> (r: Vec<String>)
    ensures
        views(r@) == annotation_path(),
{
    let r = vec!["ldml".to_owned(), "annotations".to_owned(), "annotation".to_owned()];
    assert(views(r@) =~= annotation_path());
    r
}

/// The annotations that a document's events give.
pub open spec fn annotations_of_events(events: Seq<EventModel>) -> Result<
    Map<Seq<char>, AnnotationModel>,
    XmlError,
> {
    match spec_stream(events, annotation_path()) {
        Err(e) => Err(e),
        Ok(items) => match ann_upto(items, items.len() as int) {
            Err(e) => Err(e),
            Ok(st) => Ok(st.map),
        },
    }
}

/// The annotations of the document `doc`.
pub open spec fn spec_annotations(doc: Seq<char>) -> Result<
    Map<Seq<char>, AnnotationModel>,
    XmlError,
> {
    match spec_read_xml(doc) {
        Err(e) => Err(e),
        Ok(evs) => annotations_of_events(evs),
    }
}

/// The keywords of a keyword text.
fn parse_notes(text: &String) -> (r: Vec<String>)
    ensures
        views(r@) == note_parts(text@),
{
    let parts = split_on(&chars_of(text.as_str()), '|');
    let mut out: Vec<String> = Vec::new();
    let mut i: usize = 0;
    while i < parts.len()
        invariant
            i <= parts.len(),
            views(out@) == views(parts@).take(i as int).map_values(|p: Seq<char>| trim_seq(p)),
        decreases parts.len() - i,
    {
        let t = trim_string(&parts[i]);
        proof {
            assert(views(out@.push(t)) =~= views(out@).push(t@));
            assert(views(parts@).take(i + 1).map_values(|p: Seq<char>| trim_seq(p))
                =~= views(parts@).take(i as int).map_values(|p: Seq<char>| trim_seq(p)).push(
                trim_seq(parts@[i as int]@),
            ));
        }
        out.push(t);
        i = i + 1;
    }
    assert(views(parts@).take(parts.len() as int) =~= views(parts@));
    out
}

fn copy_strings(v: &Vec<String>) -> (r: Vec<String>)
    ensures
        views(r@) == views(v@),
{
    let mut out: Vec<String> = Vec::new();
    let mut i: usize = 0;
    while i < v.len()
        invariant
            i <= v.len(),
            views(out@) == views(v@).take(i as int),
        decreases v.len() - i,
    {
        let s = v[i].clone();
        proof {
            assert(views(out@.push(s)) =~= views(out@).push(s@));
            assert(views(v@).take(i + 1) =~= views(v@).take(i as int).push(v@[i as int]@));
        }
        out.push(s);
        i = i + 1;
    }
    assert(views(v@).take(v.len() as int) =~= views(v@));
    out
}

/// The annotations of `cp`, or none.
fn current(map: &TextMap<Annotation>, cp: &String) -> (r: Annotation)
    ensures
        r.model() == ann_or_default(ann_map(map@), cp@),
{
    match map.get(cp.as_str()) {
        Some(a) => Annotation { tts: a.tts.clone(), notes: copy_strings(&a.notes) },
        None => {
            let r = Annotation { tts: String::new(), notes: Vec::new() };
            assert(views(r.notes@) =~= seq![]);
            r
        },
    }
}

/// The annotations among a document's events.
pub fn annotations_from_events(events: &Vec<XmlEvent>) -> (r: Result<
    TextMap<Annotation>,
    XmlError,
>)
    ensures
        match r {
            Ok(m) => annotations_of_events(event_models(events@)) == Ok::<
                Map<Seq<char>, AnnotationModel>,
                XmlError,
            >(ann_map(m@)),
            Err(e) => annotations_of_events(event_models(events@)) == Err::<
                Map<Seq<char>, AnnotationModel>,
                XmlError,
            >(e),
        },
{
    let path = annotation_path_exec();
    let items = stream_events(events, &path)?;
    let ghost es = emitted_seq(items@);
    let mut annot: Option<String> = None;
    let mut tts: Option<String> = None;
    let mut map: TextMap<Annotation> = TextMap::new();
    assert(ann_map(map@) =~= Map::empty());
    let mut i: usize = 0;
    while i < items.len()
        invariant
            i <= items.len(),
            es == emitted_seq(items@),
            spec_stream(event_models(events@), annotation_path()) == Ok::<Seq<Emitted>, XmlError>(es),
            ann_upto(es, i as int) == Ok::<AnnState, XmlError>(
                AnnState { annot: opt_view(annot), tts: opt_view(tts), map: ann_map(map@) },
            ),
        decreases items.len() - i,
    {
        assert(es[i as int] == items@[i as int].model());
        match &items[i] {
            ParseEvent::Start(attrs) => {
                match attrs.get("cp") {
                    None => {
                        proof {
                            lemma_ann_err(es, i + 1, es.len() as int);
                        }
                        return Err(XmlError::MissingAttribute);
                    },
                    Some(cp) => {
                        let is_tts = match attrs.get("type") {
                            Some(t) => crate::text::same_text(t.as_str(), "tts"),
                            None => false,
                        };
                        if is_tts {
                            tts = Some(cp.clone());
                        } else {
                            annot = Some(cp.clone());
                        }
                    },
                }
            },
            ParseEvent::Text(text) => {
                match tts.take() {
                    Some(cp) => {
                        let cur = current(&map, &cp);
                        let ghost m0 = map@;
                        let a = Annotation { tts: text.clone(), notes: cur.notes };
                        map.insert(cp, a);
                        assert(ann_map(map@) =~= ann_map(m0).insert(cp@, a.model()));
                    },
                    None => {
                        match annot.take() {
                            Some(cp) => {
                                let cur = current(&map, &cp);
                                let ghost m0 = map@;
                                let mut notes = cur.notes;
                                let mut more = parse_notes(text);
                                let ghost n0 = views(notes@);
                                notes.append(&mut more);
                                assert(views(notes@) =~= n0 + note_parts(text@));
                                let a = Annotation { tts: cur.tts, notes };
                                map.insert(cp, a);
                                assert(ann_map(map@) =~= ann_map(m0).insert(cp@, a.model()));
                            },
                            None => {},
                        }
                    },
                }
            },
        }
        i = i + 1;
    }
    Ok(map)
}

/// What `parse_annotations` reads of the annotations file `s`, or the error that
/// stops its reading.
fn parse_annotations_result(s: &str) -> (r: Result<TextMap<Annotation>, XmlError>)
    ensures
        match r {
            Ok(m) => spec_annotations(s@) == Ok::<Map<Seq<char>, AnnotationModel>, XmlError>(ann_map(m@)),
            Err(e) => spec_annotations(s@) == Err::<Map<Seq<char>, AnnotationModel>, XmlError>(e),
        },
{
    let events = read_xml(s)?;
    annotations_from_events(&events)
}

/// The annotations of the annotations file `s`: the spoken name and the
/// keywords of each emoji, from the `<annotation>` elements under
/// `ldml/annotations`. The file must be well formed and give each of these
/// elements a `cp`.
pub fn parse_annotations(s: &str) -> (r: TextMap<Annotation>)
    requires
        spec_annotations(s@) is Ok,
    ensures
        spec_annotations(s@) == Ok::<Map<Seq<char>, AnnotationModel>, XmlError>(ann_map(r@)),
{
    match parse_annotations_result(s) {
        Ok(m) => m,
        Err(_) => {
            assert(false);
            TextMap::new()
        },
    }
}

/// The annotations file `s` read as `parse_annotations` reads it, or the error that
/// stops the reading.
pub fn parse_annotations_checked(s: &str) -> (r: Result<TextMap<Annotation>, XmlError>)
    ensures
        match r {
            Ok(m) => spec_annotations(s@) == Ok::<Map<Seq<char>, AnnotationModel>, XmlError>(ann_map(m@)),
            Err(e) => spec_annotations(s@) == Err::<Map<Seq<char>, AnnotationModel>, XmlError>(e),
        },
{
    match parse_annotations_result(s) {
        Err(e) => Err(e),
        Ok(_) => Ok(parse_annotations(s)),
    }
}

} // verus!
