//! Listeners at several element paths over one document, as the table
//! generator reads the CLDR locale files.
//!
//! Unlike the single listener of `crate::xml`, a tag without content is
//! followed like an opening tag directly closed, and a text reaches only
//! the listeners whose path is the path of open elements.
use vstd::prelude::*;
use crate::table::TextMap;
use crate::text::{same_text, views};
use crate::collect::string_map;
use crate::xml::{
    Emitted, EventModel, ParseEvent, XmlError, XmlEvent, close_element, close_path, event_models,
    map_result, read_xml, same_path, spec_read_xml,
};

verus! {

/// The models of a list of paths.
pub open spec fn path_views(v: Seq<Vec<String>>) -> Seq<Seq<Seq<char>>> {
    v.map_values(|p: Vec<String>| views(p@))
}

/// The model of a list of events, each with the index of the listener it
/// reaches.
pub open spec fn tagged_seq(v: Seq<(usize, ParseEvent)>) -> Seq<(int, Emitted)> {
    v.map_values(|p: (usize, ParseEvent)| (p.0 as int, p.1.model()))
}

/// What the first `k` listeners receive of an event at the path `path`:
/// the event, tagged with the listener's index, for each listener whose
/// path is `path`, in the listeners' order.
pub open spec fn matched(paths: Seq<Seq<Seq<char>>>, path: Seq<Seq<char>>, item: Emitted, k: int) -> Seq<
    (int, Emitted),
>
    decreases k,
{
    if k <= 0 {
        seq![]
    } else {
        matched(paths, path, item, k - 1) + if paths[k - 1] == path {
            seq![(k - 1, item)]
        } else {
            seq![]
        }
    }
}

/// One step over the document for all listeners: a tag's name must be
/// UTF-8; the attributes of a tag must be readable where it reaches a
/// listener, and so must a text.
pub open spec fn multi_event(
    path: Seq<Seq<char>>,
    out: Seq<(int, Emitted)>,
    ev: EventModel,
    paths: Seq<Seq<Seq<char>>>,
) -> Result<(Seq<Seq<char>>, Seq<(int, Emitted)>), XmlError> {
    match ev {
        EventModel::End { name } => match name {
            None => Err(XmlError::NotUtf8),
            Some(n) => match close_element(path, n) {
                Err(e) => Err(e),
                Ok(p) => Ok((p, out)),
            },
        },
        EventModel::Start { name, attrs } => match name {
            None => Err(XmlError::NotUtf8),
            Some(n) => {
                let p = path.push(n);
                match attrs {
                    Err(e) => if paths.contains(p) {
                        Err(e)
                    } else {
                        Ok((p, out))
                    },
                    Ok(m) => Ok((p, out + matched(paths, p, Emitted::Opened(m), paths.len() as int))),
                }
            },
        },
        EventModel::Empty { name, attrs } => match name {
            None => Err(XmlError::NotUtf8),
            Some(n) => {
                let p = path.push(n);
                match attrs {
                    Err(e) => if paths.contains(p) {
                        Err(e)
                    } else {
                        Ok((path, out))
                    },
                    Ok(m) => Ok(
                        (path, out + matched(paths, p, Emitted::Opened(m), paths.len() as int)),
                    ),
                }
            },
        },
        EventModel::Text { text } => match text {
            None => if paths.contains(path) {
                Err(XmlError::Encoding)
            } else {
                Ok((path, out))
            },
            Some(t) => Ok(
                (path, out + matched(paths, path, Emitted::Content(t), paths.len() as int)),
            ),
        },
    }
}

pub open spec fn multi_upto(events: Seq<EventModel>, paths: Seq<Seq<Seq<char>>>, n: int) -> Result<
    (Seq<Seq<char>>, Seq<(int, Emitted)>),
    XmlError,
>
    decreases n,
{
    if n <= 0 {
        Ok((seq![], seq![]))
    } else {
        match multi_upto(events, paths, n - 1) {
            Err(e) => Err(e),
            Ok((path, out)) => multi_event(path, out, events[n - 1], paths),
        }
    }
}

/// What reaches the listeners at `paths` over a whole document, in order,
/// each event tagged with the index of its listener.
pub open spec fn spec_multi(events: Seq<EventModel>, paths: Seq<Seq<Seq<char>>>) -> Result<
    Seq<(int, Emitted)>,
    XmlError,
> {
    match multi_upto(events, paths, events.len() as int) {
        Err(e) => Err(e),
        Ok((_, out)) => Ok(out),
    }
}

proof fn lemma_multi_err(events: Seq<EventModel>, paths: Seq<Seq<Seq<char>>>, i: int, n: int)
    requires
        0 <= i <= n,
        multi_upto(events, paths, i) is Err,
    ensures
        multi_upto(events, paths, n) == multi_upto(events, paths, i),
    decreases n - i,
{
    if i < n {
        lemma_multi_err(events, paths, i, n - 1);
    }
}

/// Hands `item` to each listener whose path is `path`.
fn emit_to(
    paths: &Vec<Vec<String>>,
    path: &Vec<String>,
    item: &ParseEvent,
    out: &mut Vec<(usize, ParseEvent)>,
)
    ensures
        tagged_seq(final(out)@) == tagged_seq(old(out)@) + matched(
            path_views(paths@),
            views(path@),
            item.model(),
            paths@.len() as int,
        ),
{
    let ghost o0 = tagged_seq(out@);
    let mut k: usize = 0;
    while k < paths.len()
        invariant
            k <= paths.len(),
            tagged_seq(out@) == o0 + matched(path_views(paths@), views(path@), item.model(), k as int),
        decreases paths.len() - k,
    {
        assert(path_views(paths@)[k as int] == views(paths@[k as int]@));
        let ghost before = tagged_seq(out@);
        if same_path(&paths[k], path) {
            let p = (k, item.copy());
            out.push(p);
            assert(tagged_seq(out@) =~= before + seq![(k as int, item.model())]);
        }
        k = k + 1;
    }
}

/// Whether one of the listeners waits at `path`.
fn any_listener(paths: &Vec<Vec<String>>, path: &Vec<String>) -> (r: bool)
    ensures
        r == path_views(paths@).contains(views(path@)),
{
    let mut k: usize = 0;
    while k < paths.len()
        invariant
            k <= paths.len(),
            forall|j: int| 0 <= j < k ==> path_views(paths@)[j] != views(path@),
        decreases paths.len() - k,
    {
        assert(path_views(paths@)[k as int] == views(paths@[k as int]@));
        if same_path(&paths[k], path) {
            return true;
        }
        k = k + 1;
    }
    false
}

/// Whether the path `a` is `p` followed by `name`.
fn is_child_path(a: &Vec<String>, p: &Vec<String>, name: &String) -> (r: bool)
    ensures
        r == (views(a@) == views(p@).push(name@)),
{
    let n = p.len();
    if a.len() == 0 || a.len() - 1 != n {
        assert(views(a@).len() != views(p@).push(name@).len());
        return false;
    }
    let mut k: usize = 0;
    while k < n
        invariant
            k <= n == p.len(),
            a.len() == n + 1,
            forall|j: int| 0 <= j < k ==> a@[j]@ == p@[j]@,
        decreases n - k,
    {
        if !same_text(a[k].as_str(), p[k].as_str()) {
            assert(views(a@)[k as int] != views(p@).push(name@)[k as int]);
            return false;
        }
        k = k + 1;
    }
    if !same_text(a[n].as_str(), name.as_str()) {
        assert(views(a@)[n as int] != views(p@).push(name@)[n as int]);
        return false;
    }
    assert(views(a@) =~= views(p@).push(name@));
    true
}

/// Whether one of the listeners waits at the path `path` followed by
/// `name`.
fn any_listener_below(paths: &Vec<Vec<String>>, path: &Vec<String>, name: &String) -> (r: bool)
    ensures
        r == path_views(paths@).contains(views(path@).push(name@)),
{
    let mut k: usize = 0;
    while k < paths.len()
        invariant
            k <= paths.len(),
            forall|j: int| 0 <= j < k ==> path_views(paths@)[j] != views(path@).push(name@),
        decreases paths.len() - k,
    {
        assert(path_views(paths@)[k as int] == views(paths@[k as int]@));
        if is_child_path(&paths[k], path, name) {
            return true;
        }
        k = k + 1;
    }
    false
}

/// Opens an element: the path grows by its name, and the listeners at the
/// new path receive the tag's attributes. Where the attributes could not be
/// read, no listener may wait at the new path.
pub fn process_start_event(
    name: &String,
    attrs: &Result<TextMap<String>, XmlError>,
    path: &mut Vec<String>,
    paths: &Vec<Vec<String>>,
    out: &mut Vec<(usize, ParseEvent)>,
)
    requires
        map_result(*attrs) is Err ==> !path_views(paths@).contains(views(old(path)@).push(name@)),
    ensures
        views(final(path)@) == views(old(path)@).push(name@),
        match map_result(*attrs) {
            Err(_) => final(out)@ == old(out)@,
            Ok(m) => tagged_seq(final(out)@) == tagged_seq(old(out)@) + matched(
                path_views(paths@),
                views(old(path)@).push(name@),
                Emitted::Opened(m),
                paths@.len() as int,
            ),
        },
{
    path.push(name.clone());
    assert(views(path@) =~= views(old(path)@).push(name@));
    match attrs {
        Err(_) => {},
        Ok(m) => {
            let item = ParseEvent::Start(m.copy());
            emit_to(paths, path, &item, out);
        },
    }
}

/// Opens an element as `process_start_event` does, or gives the error of
/// its attributes where a listener waits at the new path.
fn open_element(
    name: &String,
    attrs: &Result<TextMap<String>, XmlError>,
    path: &mut Vec<String>,
    paths: &Vec<Vec<String>>,
    out: &mut Vec<(usize, ParseEvent)>,
) -> (r: Result<(), XmlError>)
    ensures
        views(final(path)@) == views(old(path)@).push(name@),
        match map_result(*attrs) {
            Err(e) => if path_views(paths@).contains(views(old(path)@).push(name@)) {
                r == Err::<(), XmlError>(e)
            } else {
                r is Ok && final(out)@ == old(out)@
            },
            Ok(m) => r is Ok && tagged_seq(final(out)@) == tagged_seq(old(out)@) + matched(
                path_views(paths@),
                views(old(path)@).push(name@),
                Emitted::Opened(m),
                paths@.len() as int,
            ),
        },
{
    if let Err(e) = attrs {
        if any_listener_below(paths, path, name) {
            path.push(name.clone());
            assert(views(path@) =~= views(old(path)@).push(name@));
            return Err(*e);
        }
    }
    process_start_event(name, attrs, path, paths, out);
    Ok(())
}

/// What reaches the listeners at `paths` over a document's events.
pub fn match_events(events: &Vec<XmlEvent>, paths: &Vec<Vec<String>>) -> (r: Result<
    Vec<(usize, ParseEvent)>,
    XmlError,
>)
    ensures
        match r {
            Ok(v) => spec_multi(event_models(events@), path_views(paths@)) == Ok::<
                Seq<(int, Emitted)>,
                XmlError,
            >(tagged_seq(v@)),
            Err(e) => spec_multi(event_models(events@), path_views(paths@)) == Err::<
                Seq<(int, Emitted)>,
                XmlError,
            >(e),
        },
{
    let ghost ps = path_views(paths@);
    let ghost evs = event_models(events@);
    let mut path: Vec<String> = Vec::new();
    let mut out: Vec<(usize, ParseEvent)> = Vec::new();
    assert(views(path@) =~= seq![]);
    assert(tagged_seq(out@) =~= seq![]);
    let mut i: usize = 0;
    while i < events.len()
        invariant
            i <= events.len(),
            ps == path_views(paths@),
            evs == event_models(events@),
            multi_upto(evs, ps, i as int) == Ok::<
                (Seq<Seq<char>>, Seq<(int, Emitted)>),
                XmlError,
            >((views(path@), tagged_seq(out@))),
        decreases events.len() - i,
    {
        let ghost p0 = views(path@);
        let ghost o0 = tagged_seq(out@);
        assert(evs[i as int] == events@[i as int].model());
        assert(multi_upto(evs, ps, i + 1) == multi_event(p0, o0, evs[i as int], ps));
        let r: Result<(), XmlError> = match &events[i] {
            XmlEvent::End { name } => match name {
                None => Err(XmlError::NotUtf8),
                Some(n) => close_path(&mut path, n),
            },
            XmlEvent::Start { name, attrs } => match name {
                None => Err(XmlError::NotUtf8),
                Some(n) => open_element(n, attrs, &mut path, paths, &mut out),
            },
            XmlEvent::Empty { name, attrs } => match name {
                None => Err(XmlError::NotUtf8),
                Some(n) => {
                    let r = open_element(n, attrs, &mut path, paths, &mut out);
                    let ghost p1 = path@;
                    assert(views(p1) == p0.push(n@));
                    path.pop();
                    assert(path@ =~= p1.subrange(0, p1.len() - 1));
                    assert(views(path@) =~= views(p1).drop_last());
                    assert(views(path@) =~= p0);
                    r
                },
            },
            XmlEvent::Text { text } => match text {
                None => {
                    if any_listener(paths, &path) {
                        Err(XmlError::Encoding)
                    } else {
                        Ok(())
                    }
                },
                Some(t) => {
                    let item = ParseEvent::Text(t.clone());
                    emit_to(paths, &path, &item, &mut out);
                    Ok(())
                },
            },
        };
        match r {
            Ok(()) => {},
            Err(e) => {
                proof {
                    lemma_multi_err(evs, ps, i + 1, evs.len() as int);
                }
                return Err(e);
            },
        }
        i = i + 1;
    }
    Ok(out)
}

/// What reaches the listeners at `paths` over the document `doc`.
pub open spec fn spec_multi_doc(doc: Seq<char>, paths: Seq<Seq<Seq<char>>>) -> Result<
    Seq<(int, Emitted)>,
    XmlError,
> {
    match spec_read_xml(doc) {
        Err(e) => Err(e),
        Ok(evs) => spec_multi(evs, paths),
    }
}

/// What reaches the listeners at `paths` over the document `s`, or the
/// error that stops the reading.
fn parse_xml_multiple_result(s: &str, paths: &Vec<Vec<String>>) -> (r: Result<
    Vec<(usize, ParseEvent)>,
    XmlError,
>)
    ensures
        match r {
            Ok(v) => spec_multi_doc(s@, path_views(paths@)) == Ok::<Seq<(int, Emitted)>, XmlError>(
                tagged_seq(v@),
            ),
            Err(e) => spec_multi_doc(s@, path_views(paths@)) == Err::<Seq<(int, Emitted)>, XmlError>(e),
        },
{
    let events = read_xml(s)?;
    match_events(&events, paths)
}

/// Reads the document `s` and gives what reaches the listeners at `paths`,
/// each event tagged with the index of its listener. The document must be
/// well formed, and the tags that a listener receives readable.
pub fn parse_xml_multiple(s: &str, paths: &Vec<Vec<String>>) -> (r: Vec<(usize, ParseEvent)>)
    requires
        spec_multi_doc(s@, path_views(paths@)) is Ok,
    ensures
        spec_multi_doc(s@, path_views(paths@)) == Ok::<Seq<(int, Emitted)>, XmlError>(tagged_seq(r@)),
{
    match parse_xml_multiple_result(s, paths) {
        Ok(v) => v,
        Err(_) => {
            assert(false);
            Vec::new()
        },
    }
}

/// What reaches the listeners at `paths` over the document `s` as
/// `parse_xml_multiple` gives it, or the error that stops the reading.
pub fn parse_xml_multiple_checked(s: &str, paths: &Vec<Vec<String>>) -> (r: Result<
    Vec<(usize, ParseEvent)>,
    XmlError,
>)
    ensures
        match r {
            Ok(v) => spec_multi_doc(s@, path_views(paths@)) == Ok::<Seq<(int, Emitted)>, XmlError>(
                tagged_seq(v@),
            ),
            Err(e) => spec_multi_doc(s@, path_views(paths@)) == Err::<Seq<(int, Emitted)>, XmlError>(e),
        },
{
    match parse_xml_multiple_result(s, paths) {
        Err(e) => Err(e),
        Ok(_) => Ok(parse_xml_multiple(s, paths)),
    }
}

/// What reaches a single listener at `path` over a whole document.
pub open spec fn spec_single(events: Seq<EventModel>, path: Seq<Seq<char>>) -> Result<
    Seq<Emitted>,
    XmlError,
> {
    match spec_multi(events, seq![path]) {
        Err(e) => Err(e),
        Ok(t) => Ok(t.map_values(|p: (int, Emitted)| p.1)),
    }
}

/// What reaches a single listener at `path` over a document's events.
pub fn stream_single(events: &Vec<XmlEvent>, path: &Vec<String>) -> (r: Result<
    Vec<ParseEvent>,
    XmlError,
>)
    ensures
        match r {
            Ok(v) => spec_single(event_models(events@), views(path@)) == Ok::<
                Seq<Emitted>,
                XmlError,
            >(crate::xml::emitted_seq(v@)),
            Err(e) => spec_single(event_models(events@), views(path@)) == Err::<
                Seq<Emitted>,
                XmlError,
            >(e),
        },
{
    let mut paths: Vec<Vec<String>> = Vec::new();
    paths.push(path.clone());
    assert(path_views(paths@) =~= seq![views(path@)]);
    let tagged = match_events(events, &paths)?;
    let mut out: Vec<ParseEvent> = Vec::new();
    let mut i: usize = 0;
    while i < tagged.len()
        invariant
            i <= tagged.len(),
            crate::xml::emitted_seq(out@) == tagged_seq(tagged@).take(i as int).map_values(
                |p: (int, Emitted)| p.1,
            ),
        decreases tagged.len() - i,
    {
        let e = tagged[i].1.copy();
        proof {
            assert(crate::xml::emitted_seq(out@.push(e)) =~= crate::xml::emitted_seq(out@).push(
                e.model(),
            ));
            assert(tagged_seq(tagged@).take(i + 1).map_values(|p: (int, Emitted)| p.1)
                =~= tagged_seq(tagged@).take(i as int).map_values(|p: (int, Emitted)| p.1).push(
                tagged@[i as int].1.model(),
            ));
        }
        out.push(e);
        i = i + 1;
    }
    assert(tagged_seq(tagged@).take(tagged.len() as int) =~= tagged_seq(tagged@));
    Ok(out)
}

/// What reaches a single listener at `path` over the document `doc`.
pub open spec fn spec_single_doc(doc: Seq<char>, path: Seq<Seq<char>>) -> Result<
    Seq<Emitted>,
    XmlError,
> {
    match spec_read_xml(doc) {
        Err(e) => Err(e),
        Ok(evs) => spec_single(evs, path),
    }
}

/// What reaches a single listener at `path` over the document `s`, or the
/// error that stops the reading.
fn parse_xml_streaming_result(s: &str, path: &Vec<String>) -> (r: Result<
    Vec<ParseEvent>,
    XmlError,
>)
    ensures
        match r {
            Ok(v) => spec_single_doc(s@, views(path@)) == Ok::<Seq<Emitted>, XmlError>(
                crate::xml::emitted_seq(v@),
            ),
            Err(e) => spec_single_doc(s@, views(path@)) == Err::<Seq<Emitted>, XmlError>(e),
        },
{
    let events = read_xml(s)?;
    stream_single(&events, path)
}

/// Reads the document `s` and gives what reaches a single listener at
/// `path`. The document must be well formed, and the tags that the listener
/// receives readable.
pub fn parse_xml_streaming(s: &str, path: &Vec<String>) -> (r: Vec<ParseEvent>)
    requires
        spec_single_doc(s@, views(path@)) is Ok,
    ensures
        spec_single_doc(s@, views(path@)) == Ok::<Seq<Emitted>, XmlError>(crate::xml::emitted_seq(r@)),
{
    match parse_xml_streaming_result(s, path) {
        Ok(v) => v,
        Err(_) => {
            assert(false);
            Vec::new()
        },
    }
}

/// What reaches a single listener at `path` over the document `s` as
/// `parse_xml_streaming` gives it, or the error that stops the reading.
pub fn parse_xml_streaming_checked(s: &str, path: &Vec<String>) -> (r: Result<
    Vec<ParseEvent>,
    XmlError,
>)
    ensures
        match r {
            Ok(v) => spec_single_doc(s@, views(path@)) == Ok::<Seq<Emitted>, XmlError>(
                crate::xml::emitted_seq(v@),
            ),
            Err(e) => spec_single_doc(s@, views(path@)) == Err::<Seq<Emitted>, XmlError>(e),
        },
{
    match parse_xml_streaming_result(s, path) {
        Err(e) => Err(e),
        Ok(_) => Ok(parse_xml_streaming(s, path)),
    }
}

} // verus!
