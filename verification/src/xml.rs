//! Reading an XML document as a list of events, and following the path of
//! open elements through that list.
//!
//! The tokenizing is done by `quick_xml`. Its results are named: the token
//! that the `k`-th read of a reader over a document gives is
//! `token_at(doc, k)`, in plain values. From those tokens the library
//! computes, with proved contracts, the events of the document and what
//! reaches a listener that waits at a given element path.
use vstd::prelude::*;
use quick_xml::events::{BytesEnd, BytesStart, BytesText, Event};
use quick_xml::reader::Reader;
use crate::collect::string_map;
use crate::table::TextMap;
use crate::text::{chars_of, opt_view, views};

verus! {

#[verifier::external_type_specification]
#[verifier::external_body]
#[verifier::reject_recursive_types(R)]
pub struct ExReader<R>(Reader<R>);

#[verifier::external_type_specification]
#[verifier::external_body]
pub struct ExBytesStart<'a>(BytesStart<'a>);

#[verifier::external_type_specification]
#[verifier::external_body]
pub struct ExBytesEnd<'a>(BytesEnd<'a>);

#[verifier::external_type_specification]
#[verifier::external_body]
pub struct ExBytesText<'a>(BytesText<'a>);

#[verifier::external_type_specification]
#[verifier::external_body]
pub struct ExXmlError(quick_xml::Error);

/// Why a document could not be read.
#[derive(Clone, Copy, Debug, PartialEq, Eq, Structural)]
pub enum XmlError {
    /// The tokenizer rejected the document.
    Syntax,
    /// The tokenizer rejected the attributes of a tag.
    Attribute,
    /// A text is not UTF-8.
    Encoding,
    /// A tag name or an attribute is not UTF-8.
    NotUtf8,
    /// A closing tag without an open element.
    UnopenedEnd,
    /// A closing tag whose name is not that of the open element.
    MismatchedEnd,
    /// The document holds more tokens than it has characters.
    EventLimit,
    /// A tag lacks the attribute that its content needs.
    MissingAttribute,
    /// The document names no language.
    EmptyLanguage,
}

/// An attribute as the tokenizer gives it: its raw key and value, or a
/// malformed attribute.
pub enum AttrToken {
    Pair(Seq<u8>, Seq<u8>),
    Malformed,
}

/// A token of a document as the tokenizer gives it, in plain values: the
/// raw name and attributes of a tag, the decoded text of a text (`None`
/// where it is not UTF-8), the end of the document, another kind of token
/// (comment, declaration, processing instruction, CDATA section, entity
/// reference), or an error.
pub enum Token {
    Start { name: Seq<u8>, attrs: Seq<AttrToken> },
    Empty { name: Seq<u8>, attrs: Seq<AttrToken> },
    End { name: Seq<u8> },
    Text { text: Option<Seq<char>> },
    Eof,
    Other,
    Failed,
}

/// What the `k`-th call of `Reader::read_event` (counting from 0) gives on
/// a reader that `Reader::from_str` made over the document `doc`.
pub uninterp spec fn token_at(doc: Seq<char>, k: nat) -> Token;

/// The document that a reader reads.
pub uninterp spec fn reader_source(r: Reader<&[u8]>) -> Seq<char>;

/// How many times a reader has been read.
pub uninterp spec fn reader_reads(r: Reader<&[u8]>) -> nat;

/// The raw bytes of the name of an opening tag.
pub uninterp spec fn tag_bytes(e: BytesStart) -> Seq<u8>;

/// The items that `BytesStart::attributes` yields for a tag.
pub uninterp spec fn tag_attributes(e: BytesStart) -> Seq<AttrToken>;

/// The raw bytes of the name of a closing tag.
pub uninterp spec fn end_tag_bytes(e: BytesEnd) -> Seq<u8>;

/// The decoded content of a text token, `None` where it does not decode.
pub uninterp spec fn text_chars(e: BytesText) -> Option<Seq<char>>;

/// One token of the tokenizer, its content still in the tokenizer's types.
pub enum RawEvent<'a> {
    Start(BytesStart<'a>),
    End(BytesEnd<'a>),
    Empty(BytesStart<'a>),
    Text(BytesText<'a>),
    Eof,
    Other,
}

/// The token that a read gives.
pub open spec fn raw_token(r: Result<RawEvent, quick_xml::Error>) -> Token {
    match r {
        Err(_) => Token::Failed,
        Ok(RawEvent::Start(e)) => Token::Start { name: tag_bytes(e), attrs: tag_attributes(e) },
        Ok(RawEvent::Empty(e)) => Token::Empty { name: tag_bytes(e), attrs: tag_attributes(e) },
        Ok(RawEvent::End(e)) => Token::End { name: end_tag_bytes(e) },
        Ok(RawEvent::Text(e)) => Token::Text { text: text_chars(e) },
        Ok(RawEvent::Eof) => Token::Eof,
        Ok(RawEvent::Other) => Token::Other,
    }
}

/// `Reader::from_str`: a reader over the document `s` that has not been
/// read yet.
#[verifier::external_body]
fn new_reader(s: &str) -> (r: Reader<&[u8]>)
    ensures
        reader_source(r) == s@,
        reader_reads(r) == 0,
{
    Reader::from_str(s)
}

/// `Reader::read_event`: the next token of the document.
#[verifier::external_body]
fn next_event<'a>(reader: &mut Reader<&'a [u8]>) -> (r: Result<RawEvent<'a>, quick_xml::Error>)
    ensures
        raw_token(r) == token_at(reader_source(*old(reader)), reader_reads(*old(reader))),
        reader_source(*final(reader)) == reader_source(*old(reader)),
        reader_reads(*final(reader)) == reader_reads(*old(reader)) + 1,
{
    match reader.read_event() {
        Ok(Event::Start(e)) => Ok(RawEvent::Start(e)),
        Ok(Event::End(e)) => Ok(RawEvent::End(e)),
        Ok(Event::Empty(e)) => Ok(RawEvent::Empty(e)),
        Ok(Event::Text(e)) => Ok(RawEvent::Text(e)),
        Ok(Event::Eof) => Ok(RawEvent::Eof),
        Ok(_) => Ok(RawEvent::Other),
        Err(e) => Err(e),
    }
}

/// `BytesStart::name`: the raw bytes of a tag's name.
#[verifier::external_body]
fn start_name(e: &BytesStart) -> (r: Vec<u8>)
    ensures
        r@ == tag_bytes(*e),
{
    e.name().as_ref().to_vec()
}

/// `BytesEnd::name`: the raw bytes of a closing tag's name.
#[verifier::external_body]
fn end_name(e: &BytesEnd) -> (r: Vec<u8>)
    ensures
        r@ == end_tag_bytes(*e),
{
    e.name().as_ref().to_vec()
}

/// `BytesText::decode`: the text of a text token.
#[verifier::external_body]
fn text_content(e: &BytesText) -> (r: Option<String>)
    ensures
        match r {
            Some(t) => text_chars(*e) == Some(t@),
            None => text_chars(*e) is None,
        },
{
    match e.decode() {
        Ok(t) => Some(t.into_owned()),
        Err(_) => None,
    }
}

/// An attribute as the tokenizer gives it.
pub enum RawAttr {
    Pair(Vec<u8>, Vec<u8>),
    Malformed,
}

impl RawAttr {
    pub open spec fn model(&self) -> AttrToken {
        match self {
            RawAttr::Pair(k, v) => AttrToken::Pair(k@, v@),
            RawAttr::Malformed => AttrToken::Malformed,
        }
    }
}

pub open spec fn raw_attrs(v: Seq<RawAttr>) -> Seq<AttrToken> {
    v.map_values(|a: RawAttr| a.model())
}

/// `BytesStart::attributes`: each attribute of a tag, as its raw key and
/// value or as malformed.
#[verifier::external_body]
fn start_attributes(e: &BytesStart) -> (r: Vec<RawAttr>)
    ensures
        raw_attrs(r@) == tag_attributes(*e),
{
    e.attributes().map(|a| match a {
        Ok(a) => RawAttr::Pair(a.key.as_ref().to_vec(), a.value.into_owned()),
        Err(_) => RawAttr::Malformed,
    }).collect()
}

/// `std::str::from_utf8`: the text that the bytes encode, where they are
/// UTF-8.
#[verifier::external_body]
pub(crate) fn utf8_text(b: &[u8]) -> (r: Option<String>)
    ensures
        r is Some <==> vstd::utf8::valid_utf8(b@),
        r matches Some(s) ==> s@ == vstd::utf8::decode_utf8(b@),
{
    match std::str::from_utf8(b) {
        Ok(s) => Some(s.to_string()),
        Err(_) => None,
    }
}

/// The text that bytes encode, where they are UTF-8.
pub open spec fn utf8_of(b: Seq<u8>) -> Option<Seq<char>> {
    if vstd::utf8::valid_utf8(b) {
        Some(vstd::utf8::decode_utf8(b))
    } else {
        None
    }
}

/// The attributes of the first `n` items as a map (a later attribute of
/// the same key wins), or the error of the first item that is malformed or
/// whose key or value is not UTF-8.
pub open spec fn attr_map_upto(attrs: Seq<AttrToken>, n: int) -> Result<
    Map<Seq<char>, Seq<char>>,
    XmlError,
>
    decreases n,
{
    if n <= 0 {
        Ok(Map::empty())
    } else {
        match attr_map_upto(attrs, n - 1) {
            Err(e) => Err(e),
            Ok(m) => match attrs[n - 1] {
                AttrToken::Malformed => Err(XmlError::Attribute),
                AttrToken::Pair(k, v) => match utf8_of(k) {
                    None => Err(XmlError::NotUtf8),
                    Some(key) => match utf8_of(v) {
                        None => Err(XmlError::NotUtf8),
                        Some(value) => Ok(m.insert(key, value)),
                    },
                },
            },
        }
    }
}

/// The attributes of a tag as a map, or the error of the first attribute
/// that cannot be read.
pub open spec fn attr_map(attrs: Seq<AttrToken>) -> Result<Map<Seq<char>, Seq<char>>, XmlError> {
    attr_map_upto(attrs, attrs.len() as int)
}

proof fn lemma_attr_err(attrs: Seq<AttrToken>, i: int, n: int)
    requires
        0 <= i <= n,
        attr_map_upto(attrs, i) is Err,
    ensures
        attr_map_upto(attrs, n) == attr_map_upto(attrs, i),
    decreases n - i,
{
    if i < n {
        lemma_attr_err(attrs, i, n - 1);
    }
}

pub open spec fn map_result(r: Result<TextMap<String>, XmlError>) -> Result<
    Map<Seq<char>, Seq<char>>,
    XmlError,
> {
    match r {
        Ok(m) => Ok(string_map(m@)),
        Err(e) => Err(e),
    }
}

/// The attributes of a tag as a map.
fn read_attributes(e: &BytesStart) -> (r: Result<TextMap<String>, XmlError>)
    ensures
        map_result(r) == attr_map(tag_attributes(*e)),
{
    let items = start_attributes(e);
    let ghost ts = raw_attrs(items@);
    let mut m: TextMap<String> = TextMap::new();
    assert(string_map(m@) =~= Map::empty());
    let mut i: usize = 0;
    while i < items.len()
        invariant
            i <= items.len(),
            ts == raw_attrs(items@),
            ts == tag_attributes(*e),
            attr_map_upto(ts, i as int) == Ok::<Map<Seq<char>, Seq<char>>, XmlError>(
                string_map(m@),
            ),
        decreases items.len() - i,
    {
        assert(ts[i as int] == items@[i as int].model());
        match &items[i] {
            RawAttr::Malformed => {
                proof {
                    assert(attr_map_upto(ts, i + 1) == Err::<Map<Seq<char>, Seq<char>>, XmlError>(
                        XmlError::Attribute,
                    ));
                    lemma_attr_err(ts, i + 1, ts.len() as int);
                }
                return Err(XmlError::Attribute);
            },
            RawAttr::Pair(k, v) => {
                let key = match utf8_text(k.as_slice()) {
                    Some(t) => t,
                    None => {
                        proof {
                            assert(utf8_of(k@) is None);
                            assert(attr_map_upto(ts, i + 1) == Err::<
                                Map<Seq<char>, Seq<char>>,
                                XmlError,
                            >(XmlError::NotUtf8));
                            lemma_attr_err(ts, i + 1, ts.len() as int);
                        }
                        return Err(XmlError::NotUtf8);
                    },
                };
                let value = match utf8_text(v.as_slice()) {
                    Some(t) => t,
                    None => {
                        proof {
                            assert(utf8_of(v@) is None);
                            assert(attr_map_upto(ts, i + 1) == Err::<
                                Map<Seq<char>, Seq<char>>,
                                XmlError,
                            >(XmlError::NotUtf8));
                            lemma_attr_err(ts, i + 1, ts.len() as int);
                        }
                        return Err(XmlError::NotUtf8);
                    },
                };
                let ghost m0 = m@;
                m.insert(key, value);
                assert(string_map(m@) =~= string_map(m0).insert(key@, value@));
            },
        }
        i = i + 1;
    }
    Ok(m)
}

/// XML white space: space, tab, line feed and carriage return.
pub open spec fn xml_space(c: char) -> bool {
    c == ' ' || c == '\t' || c == '\n' || c == '\r'
}

/// The text without the XML white space at its start and at its end.
pub open spec fn xml_trim(s: Seq<char>) -> Seq<char>
    decreases s.len(),
{
    if s.len() > 0 && xml_space(s[0]) {
        xml_trim(s.drop_first())
    } else if s.len() > 0 && xml_space(s.last()) {
        xml_trim(s.drop_last())
    } else {
        s
    }
}

fn is_xml_space(c: char) -> (r: bool)
    ensures
        r == xml_space(c),
{
    c == ' ' || c == '\t' || c == '\n' || c == '\r'
}

/// The text without the XML white space at its start and at its end.
pub fn xml_trimmed(t: &String) -> (r: String)
    ensures
        r@ == xml_trim(t@),
{
    let v = chars_of(t.as_str());
    let mut a: usize = 0;
    let mut b: usize = v.len();
    assert(v@.subrange(0, v@.len() as int) =~= v@);
    while a < b && is_xml_space(v[a])
        invariant
            a <= b == v@.len(),
            xml_trim(v@.subrange(a as int, b as int)) == xml_trim(t@),
        decreases b - a,
    {
        assert(v@.subrange(a as int, b as int).drop_first() =~= v@.subrange(a + 1, b as int));
        a = a + 1;
    }
    while b > a && is_xml_space(v[b - 1])
        invariant
            a <= b <= v@.len(),
            a == b || !xml_space(v@[a as int]),
            xml_trim(v@.subrange(a as int, b as int)) == xml_trim(t@),
        decreases b - a,
    {
        assert(v@.subrange(a as int, b as int).drop_last() =~= v@.subrange(a as int, b - 1));
        assert(v@.subrange(a as int, b as int)[0] == v@[a as int]);
        b = b - 1;
    }
    proof {
        let s = v@.subrange(a as int, b as int);
        if s.len() > 0 {
            assert(s[0] == v@[a as int]);
            assert(s.last() == v@[b - 1]);
        }
    }
    crate::text::substring(&v, a, b)
}

/// One event of a document: an opening tag, a closing tag, a tag without
/// content, or a text trimmed of the XML white space around it. Names and
/// texts are `None` where they are not UTF-8; the attributes are the error
/// of the first that cannot be read, where there is one.
pub enum XmlEvent {
    Start { name: Option<String>, attrs: Result<TextMap<String>, XmlError> },
    End { name: Option<String> },
    Empty { name: Option<String>, attrs: Result<TextMap<String>, XmlError> },
    Text { text: Option<String> },
}

/// The model of an event.
pub enum EventModel {
    Start { name: Option<Seq<char>>, attrs: Result<Map<Seq<char>, Seq<char>>, XmlError> },
    End { name: Option<Seq<char>> },
    Empty { name: Option<Seq<char>>, attrs: Result<Map<Seq<char>, Seq<char>>, XmlError> },
    Text { text: Option<Seq<char>> },
}

impl XmlEvent {
    pub open spec fn model(&self) -> EventModel {
        match self {
            XmlEvent::Start { name, attrs } => EventModel::Start {
                name: opt_view(*name),
                attrs: map_result(*attrs),
            },
            XmlEvent::End { name } => EventModel::End { name: opt_view(*name) },
            XmlEvent::Empty { name, attrs } => EventModel::Empty {
                name: opt_view(*name),
                attrs: map_result(*attrs),
            },
            XmlEvent::Text { text } => EventModel::Text { text: opt_view(*text) },
        }
    }
}

/// The models of a list of events.
pub open spec fn event_models(v: Seq<XmlEvent>) -> Seq<EventModel> {
    v.map_values(|e: XmlEvent| e.model())
}

/// The event that a token makes, if any: text that is only white space,
/// and tokens other than tags and texts, make none.
pub open spec fn token_event(t: Token) -> Seq<EventModel> {
    match t {
        Token::Start { name, attrs } => seq![
            EventModel::Start { name: utf8_of(name), attrs: attr_map(attrs) },
        ],
        Token::Empty { name, attrs } => seq![
            EventModel::Empty { name: utf8_of(name), attrs: attr_map(attrs) },
        ],
        Token::End { name } => seq![EventModel::End { name: utf8_of(name) }],
        Token::Text { text: None } => seq![EventModel::Text { text: None }],
        Token::Text { text: Some(t) } => if xml_trim(t).len() == 0 {
            seq![]
        } else {
            seq![EventModel::Text { text: Some(xml_trim(t)) }]
        },
        _ => seq![],
    }
}

/// Where the reading stands: still reading, with the events so far, or
/// finished.
pub enum ReadState {
    Reading(Seq<EventModel>),
    Finished(Result<Seq<EventModel>, XmlError>),
}

/// Where the reading stands after `n` reads of the document: it finishes
/// at the end of the document, or with an error at a token that the
/// tokenizer rejects.
pub open spec fn read_upto(doc: Seq<char>, n: nat) -> ReadState
    decreases n,
{
    if n == 0 {
        ReadState::Reading(seq![])
    } else {
        match read_upto(doc, (n - 1) as nat) {
            ReadState::Finished(r) => ReadState::Finished(r),
            ReadState::Reading(evs) => match token_at(doc, (n - 1) as nat) {
                Token::Failed => ReadState::Finished(Err(XmlError::Syntax)),
                Token::Eof => ReadState::Finished(Ok(evs)),
                t => ReadState::Reading(evs + token_event(t)),
            },
        }
    }
}

/// How many tokens the reading takes at most: one more than the document
/// has characters.
pub open spec fn read_limit(doc: Seq<char>) -> nat {
    if doc.len() < usize::MAX {
        doc.len() + 1
    } else {
        doc.len()
    }
}

/// The events of the document `doc`, or why it could not be read.
pub open spec fn spec_read_xml(doc: Seq<char>) -> Result<Seq<EventModel>, XmlError> {
    match read_upto(doc, read_limit(doc)) {
        ReadState::Finished(r) => r,
        ReadState::Reading(_) => Err(XmlError::EventLimit),
    }
}

proof fn lemma_finished_stays(doc: Seq<char>, i: nat, n: nat)
    requires
        i <= n,
        read_upto(doc, i) is Finished,
    ensures
        read_upto(doc, n) == read_upto(doc, i),
    decreases n - i,
{
    if i < n {
        lemma_finished_stays(doc, i, (n - 1) as nat);
    }
}

proof fn lemma_xml_trim_ends(s: Seq<char>)
    ensures
        xml_trim(s).len() > 0 ==> !xml_space(xml_trim(s)[0]) && !xml_space(xml_trim(s).last()),
    decreases s.len(),
{
    if s.len() > 0 && xml_space(s[0]) {
        lemma_xml_trim_ends(s.drop_first());
    } else if s.len() > 0 && xml_space(s.last()) {
        lemma_xml_trim_ends(s.drop_last());
    }
}

/// The texts among a list of events are not empty and have no XML white
/// space at their start or their end.
pub open spec fn texts_trimmed(evs: Seq<EventModel>) -> bool {
    forall|k: int|
        0 <= k < evs.len() ==> ((#[trigger] evs[k]) matches EventModel::Text { text: Some(t) } ==> t.len()
            > 0 && xml_trim(t) == t)
}

proof fn lemma_read_trimmed(doc: Seq<char>, n: nat)
    ensures
        match read_upto(doc, n) {
            ReadState::Reading(evs) => texts_trimmed(evs),
            ReadState::Finished(Ok(evs)) => texts_trimmed(evs),
            ReadState::Finished(Err(_)) => true,
        },
    decreases n,
{
    if n > 0 {
        lemma_read_trimmed(doc, (n - 1) as nat);
        match read_upto(doc, (n - 1) as nat) {
            ReadState::Finished(_) => {},
            ReadState::Reading(evs) => {
                let t = token_at(doc, (n - 1) as nat);
                if !(t is Failed) && !(t is Eof) {
                    let next = evs + token_event(t);
                    if let Token::Text { text: Some(x) } = t {
                        lemma_xml_trim_ends(x);
                        let y = xml_trim(x);
                        if y.len() > 0 {
                            assert(xml_trim(y) == y);
                        }
                    }
                    assert forall|k: int| 0 <= k < next.len() implies ((#[trigger] next[k]) matches EventModel::Text {
                        text: Some(u),
                    } ==> u.len() > 0 && xml_trim(u) == u) by {
                        if k < evs.len() {
                            assert(next[k] == evs[k]);
                        }
                    }
                }
            },
        }
    }
}

/// The texts of a document's events are trimmed: none is empty, and none
/// starts or ends with XML white space.
pub proof fn law_texts_trimmed(doc: Seq<char>)
    ensures
        spec_read_xml(doc) matches Ok(evs) ==> texts_trimmed(evs),
{
    lemma_read_trimmed(doc, read_limit(doc));
}

/// The events of the document `s`: opening and closing tags, tags without
/// content, and texts trimmed of the white space around them; comments,
/// declarations, processing instructions, CDATA sections, entity
/// references and texts that are only white space are left out. The
/// reading stops with an error at a token that the tokenizer rejects, and
/// after more tokens than the document has characters.
pub fn read_xml(s: &str) -> (r: Result<Vec<XmlEvent>, XmlError>)
    ensures
        match r {
            Ok(v) => spec_read_xml(s@) == Ok::<Seq<EventModel>, XmlError>(event_models(v@)),
            Err(e) => spec_read_xml(s@) == Err::<Seq<EventModel>, XmlError>(e),
        },
{
    let n = chars_of(s).len();
    let limit = if n < usize::MAX {
        n + 1
    } else {
        n
    };
    assert(limit == read_limit(s@));
    let mut reader = new_reader(s);
    let mut events: Vec<XmlEvent> = Vec::new();
    let mut count: usize = 0;
    assert(event_models(events@) =~= seq![]);
    while count < limit
        invariant
            count <= limit,
            limit == read_limit(s@),
            reader_source(reader) == s@,
            reader_reads(reader) == count,
            read_upto(s@, count as nat) == ReadState::Reading(event_models(events@)),
        decreases limit - count,
    {
        let ghost evs = event_models(events@);
        let ev = next_event(&mut reader);
        let ghost tok = raw_token(ev);
        assert(tok == token_at(s@, count as nat));
        assert(read_upto(s@, (count + 1) as nat) == match tok {
            Token::Failed => ReadState::Finished(Err(XmlError::Syntax)),
            Token::Eof => ReadState::Finished(Ok(evs)),
            t => ReadState::Reading(evs + token_event(t)),
        });
        match ev {
            Err(_) => {
                proof {
                    lemma_finished_stays(s@, (count + 1) as nat, limit as nat);
                }
                return Err(XmlError::Syntax);
            },
            Ok(RawEvent::Eof) => {
                proof {
                    lemma_finished_stays(s@, (count + 1) as nat, limit as nat);
                }
                return Ok(events);
            },
            Ok(RawEvent::Other) => {
                assert(evs + token_event(tok) =~= evs);
            },
            Ok(RawEvent::Start(e)) => {
                let name = utf8_text(start_name(&e).as_slice());
                let attrs = read_attributes(&e);
                let x = XmlEvent::Start { name, attrs };
                assert(event_models(events@.push(x)) =~= evs + token_event(tok));
                events.push(x);
            },
            Ok(RawEvent::Empty(e)) => {
                let name = utf8_text(start_name(&e).as_slice());
                let attrs = read_attributes(&e);
                let x = XmlEvent::Empty { name, attrs };
                assert(event_models(events@.push(x)) =~= evs + token_event(tok));
                events.push(x);
            },
            Ok(RawEvent::End(e)) => {
                let name = utf8_text(end_name(&e).as_slice());
                let x = XmlEvent::End { name };
                assert(event_models(events@.push(x)) =~= evs + token_event(tok));
                events.push(x);
            },
            Ok(RawEvent::Text(e)) => {
                match text_content(&e) {
                    None => {
                        let x = XmlEvent::Text { text: None };
                        assert(event_models(events@.push(x)) =~= evs + token_event(tok));
                        events.push(x);
                    },
                    Some(t) => {
                        let tt = xml_trimmed(&t);
                        if tt.as_str().is_empty() {
                            assert(evs + token_event(tok) =~= evs);
                        } else {
                            let x = XmlEvent::Text { text: Some(tt) };
                            assert(event_models(events@.push(x)) =~= evs + token_event(tok));
                            events.push(x);
                        }
                    },
                }
            },
        }
        count = count + 1;
    }
    Err(XmlError::EventLimit)
}

/// What reaches a listener: the attributes of the tag that opens its
/// element, or a text.
pub enum ParseEvent {
    Start(TextMap<String>),
    Text(String),
}

/// The model of what reaches a listener.
pub enum Emitted {
    Opened(Map<Seq<char>, Seq<char>>),
    Content(Seq<char>),
}

impl ParseEvent {
    pub open spec fn model(&self) -> Emitted {
        match self {
            ParseEvent::Start(attrs) => Emitted::Opened(string_map(attrs@)),
            ParseEvent::Text(t) => Emitted::Content(t@),
        }
    }
}

impl ParseEvent {
    /// A copy of the event.
    pub fn copy(&self) -> (r: ParseEvent)
        ensures
            r.model() == self.model(),
    {
        match self {
            ParseEvent::Start(attrs) => ParseEvent::Start(attrs.copy()),
            ParseEvent::Text(t) => ParseEvent::Text(t.clone()),
        }
    }
}

pub open spec fn emitted_seq(v: Seq<ParseEvent>) -> Seq<Emitted> {
    v.map_values(|p: ParseEvent| p.model())
}

/// The path of open elements after a closing tag, or the error it makes.
pub open spec fn close_element(path: Seq<Seq<char>>, name: Seq<char>) -> Result<
    Seq<Seq<char>>,
    XmlError,
> {
    if path.len() == 0 {
        Err(XmlError::UnopenedEnd)
    } else if path.last() != name {
        Err(XmlError::MismatchedEnd)
    } else {
        Ok(path.drop_last())
    }
}

/// One step of a single listener at the path `cb`: a tag's name must be
/// UTF-8; an opening tag that makes the path of open elements equal to
/// `cb` reaches it with its attributes, which must then be readable; every
/// text reaches it, and must be UTF-8; tags without content are passed
/// over.
pub open spec fn stream_event(
    path: Seq<Seq<char>>,
    out: Seq<Emitted>,
    ev: EventModel,
    cb: Seq<Seq<char>>,
) -> Result<(Seq<Seq<char>>, Seq<Emitted>), XmlError> {
    match ev {
        EventModel::End { name } => match name {
            None => Err(XmlError::NotUtf8),
            Some(n) => match close_element(path, n) {
                Err(e) => Err(e),
                Ok(p) => Ok((p, out)),
            },
        },
        EventModel::Start { name, attrs } => match name {
            None => Err(XmlError::NotUtf8),
            Some(n) => {
                let p = path.push(n);
                if p == cb {
                    match attrs {
                        Err(e) => Err(e),
                        Ok(m) => Ok((p, out.push(Emitted::Opened(m)))),
                    }
                } else {
                    Ok((p, out))
                }
            },
        },
        EventModel::Text { text } => match text {
            None => Err(XmlError::Encoding),
            Some(t) => Ok((path, out.push(Emitted::Content(t)))),
        },
        EventModel::Empty { .. } => Ok((path, out)),
    }
}

/// The state after the first `n` events: the path of open elements and
/// what has reached the listener.
pub open spec fn stream_upto(events: Seq<EventModel>, cb: Seq<Seq<char>>, n: int) -> Result<
    (Seq<Seq<char>>, Seq<Emitted>),
    XmlError,
>
    decreases n,
{
    if n <= 0 {
        Ok((seq![], seq![]))
    } else {
        match stream_upto(events, cb, n - 1) {
            Err(e) => Err(e),
            Ok((path, out)) => stream_event(path, out, events[n - 1], cb),
        }
    }
}

/// What reaches a single listener at the path `cb` over a whole document.
pub open spec fn spec_stream(events: Seq<EventModel>, cb: Seq<Seq<char>>) -> Result<
    Seq<Emitted>,
    XmlError,
> {
    match stream_upto(events, cb, events.len() as int) {
        Err(e) => Err(e),
        Ok((_, out)) => Ok(out),
    }
}

proof fn lemma_stream_err(events: Seq<EventModel>, cb: Seq<Seq<char>>, i: int, n: int)
    requires
        0 <= i <= n,
        stream_upto(events, cb, i) is Err,
    ensures
        stream_upto(events, cb, n) == stream_upto(events, cb, i),
    decreases n - i,
{
    if i < n {
        lemma_stream_err(events, cb, i, n - 1);
    }
}

/// Whether two paths are equal.
pub fn same_path(a: &Vec<String>, b: &Vec<String>) -> (r: bool)
    ensures
        r == (views(a@) == views(b@)),
{
    if a.len() != b.len() {
        assert(views(a@).len() != views(b@).len());
        return false;
    }
    let mut i: usize = 0;
    while i < a.len()
        invariant
            i <= a.len() == b.len(),
            forall|j: int| 0 <= j < i ==> a@[j]@ == b@[j]@,
        decreases a.len() - i,
    {
        if a[i] != b[i] {
            assert(views(a@)[i as int] != views(b@)[i as int]);
            return false;
        }
        i = i + 1;
    }
    assert(views(a@) =~= views(b@));
    true
}

/// The path of open elements after a closing tag named `name`.
pub fn close_path(path: &mut Vec<String>, name: &String) -> (r: Result<(), XmlError>)
    ensures
        match close_element(views(old(path)@), name@) {
            Ok(p) => r is Ok && views(final(path)@) == p,
            Err(e) => r == Err::<(), XmlError>(e),
        },
{
    if path.len() == 0 {
        return Err(XmlError::UnopenedEnd);
    }
    let last = path.pop().unwrap();
    proof {
        assert(views(old(path)@).last() == last@);
        assert(views(path@) =~= views(old(path)@).drop_last());
    }
    if last != *name {
        return Err(XmlError::MismatchedEnd);
    }
    Ok(())
}

/// What reaches a single listener that waits at the element path `cb`.
pub fn stream_events(events: &Vec<XmlEvent>, cb: &Vec<String>) -> (r: Result<
    Vec<ParseEvent>,
    XmlError,
>)
    ensures
        match r {
            Ok(v) => spec_stream(event_models(events@), views(cb@)) == Ok::<
                Seq<Emitted>,
                XmlError,
            >(emitted_seq(v@)),
            Err(e) => spec_stream(event_models(events@), views(cb@)) == Err::<
                Seq<Emitted>,
                XmlError,
            >(e),
        },
{
    let ghost evs = event_models(events@);
    let mut path: Vec<String> = Vec::new();
    let mut out: Vec<ParseEvent> = Vec::new();
    assert(views(path@) =~= seq![]);
    assert(emitted_seq(out@) =~= seq![]);
    let mut i: usize = 0;
    while i < events.len()
        invariant
            i <= events.len(),
            evs == event_models(events@),
            stream_upto(evs, views(cb@), i as int) == Ok::<
                (Seq<Seq<char>>, Seq<Emitted>),
                XmlError,
            >((views(path@), emitted_seq(out@))),
        decreases events.len() - i,
    {
        let ghost p0 = views(path@);
        let ghost o0 = emitted_seq(out@);
        proof {
            assert(evs[i as int] == events@[i as int].model());
            assert(stream_upto(evs, views(cb@), i + 1) == stream_event(
                p0,
                o0,
                evs[i as int],
                views(cb@),
            ));
        }
        match &events[i] {
            XmlEvent::End { name } => {
                let r = match name {
                    None => Err(XmlError::NotUtf8),
                    Some(n) => close_path(&mut path, n),
                };
                match r {
                    Ok(()) => {},
                    Err(e) => {
                        proof {
                            lemma_stream_err(evs, views(cb@), i + 1, evs.len() as int);
                        }
                        return Err(e);
                    },
                }
            },
            XmlEvent::Start { name, attrs } => {
                let n = match name {
                    None => {
                        proof {
                            lemma_stream_err(evs, views(cb@), i + 1, evs.len() as int);
                        }
                        return Err(XmlError::NotUtf8);
                    },
                    Some(n) => n,
                };
                path.push(n.clone());
                assert(views(path@) =~= p0.push(n@));
                if same_path(&path, cb) {
                    match attrs {
                        Err(e) => {
                            proof {
                                lemma_stream_err(evs, views(cb@), i + 1, evs.len() as int);
                            }
                            return Err(*e);
                        },
                        Ok(m) => {
                            let pe = ParseEvent::Start(m.copy());
                            assert(emitted_seq(out@.push(pe)) =~= o0.push(
                                Emitted::Opened(string_map(m@)),
                            ));
                            out.push(pe);
                        },
                    }
                }
            },
            XmlEvent::Text { text } => {
                match text {
                    None => {
                        proof {
                            lemma_stream_err(evs, views(cb@), i + 1, evs.len() as int);
                        }
                        return Err(XmlError::Encoding);
                    },
                    Some(t) => {
                        let pe = ParseEvent::Text(t.clone());
                        assert(emitted_seq(out@.push(pe)) =~= o0.push(Emitted::Content(t@)));
                        out.push(pe);
                    },
                }
            },
            XmlEvent::Empty { .. } => {},
        }
        i = i + 1;
    }
    Ok(out)
}

/// What reaches a single listener at the path `cb` over the document `doc`.
pub open spec fn spec_stream_doc(doc: Seq<char>, cb: Seq<Seq<char>>) -> Result<
    Seq<Emitted>,
    XmlError,
> {
    match spec_read_xml(doc) {
        Err(e) => Err(e),
        Ok(evs) => spec_stream(evs, cb),
    }
}

/// What reaches a single listener at `cb` over the document `s`, or the
/// error that stops the reading.
fn parse_xml_streaming_result(s: &str, cb: &Vec<String>) -> (r: Result<
    Vec<ParseEvent>,
    XmlError,
>)
    ensures
        match r {
            Ok(v) => spec_stream_doc(s@, views(cb@)) == Ok::<Seq<Emitted>, XmlError>(
                emitted_seq(v@),
            ),
            Err(e) => spec_stream_doc(s@, views(cb@)) == Err::<Seq<Emitted>, XmlError>(e),
        },
{
    let events = read_xml(s)?;
    stream_events(&events, cb)
}

/// Reads the document `s` and gives what reaches a single listener that
/// waits at the element path `cb`: the attributes of each tag that opens an
/// element at that path, and every text. The document must be well formed,
/// and the tags and texts that the listener receives readable.
pub fn parse_xml_streaming(s: &str, cb: &Vec<String>) -> (r: Vec<ParseEvent>)
    requires
        spec_stream_doc(s@, views(cb@)) is Ok,
    ensures
        spec_stream_doc(s@, views(cb@)) == Ok::<Seq<Emitted>, XmlError>(emitted_seq(r@)),
{
    match parse_xml_streaming_result(s, cb) {
        Ok(v) => v,
        Err(_) => {
            assert(false);
            Vec::new()
        },
    }
}

/// What reaches a single listener at `cb` over the document `s` as
/// `parse_xml_streaming` gives it, or the error that stops the reading.
pub fn parse_xml_streaming_checked(s: &str, cb: &Vec<String>) -> (r: Result<
    Vec<ParseEvent>,
    XmlError,
>)
    ensures
        match r {
            Ok(v) => spec_stream_doc(s@, views(cb@)) == Ok::<Seq<Emitted>, XmlError>(
                emitted_seq(v@),
            ),
            Err(e) => spec_stream_doc(s@, views(cb@)) == Err::<Seq<Emitted>, XmlError>(e),
        },
{
    match parse_xml_streaming_result(s, cb) {
        Err(e) => Err(e),
        Ok(_) => Ok(parse_xml_streaming(s, cb)),
    }
}

} // verus!
