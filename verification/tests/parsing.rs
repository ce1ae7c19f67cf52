use emojianki::annotations::{parse_annotations, parse_annotations_checked};
use emojianki::build::annotations::{
    load_annotations, load_annotations_checked, parse_annotations as parse_tts, parse_annotations_checked as parse_tts_checked,
};
use emojianki::build::languages::{
    parse_languages as build_languages, parse_languages_checked as build_languages_checked,
};
use emojianki::build::xml::{
    parse_xml_multiple, parse_xml_multiple_checked, parse_xml_streaming as build_streaming,
    process_start_event,
    parse_xml_streaming_checked as build_streaming_checked,
};
use emojianki::charlabels::{parse_charlabels, parse_charlabels_checked};
use emojianki::languages::{parse_languages, parse_languages_checked};
use emojianki::table::TextMap;
use emojianki::xml::{
    parse_xml_streaming, parse_xml_streaming_checked, read_xml, xml_trimmed, ParseEvent, XmlError,
};

fn path(v: &[&str]) -> Vec<String> {
    v.iter().map(|s| s.to_string()).collect()
}

fn texts(v: &[ParseEvent]) -> Vec<String> {
    v.iter()
        .filter_map(|e| match e {
            ParseEvent::Text(t) => Some(t.clone()),
            ParseEvent::Start(_) => None,
        })
        .collect()
}

const LANGS: &str = r#"<ldml>
  <localeDisplayNames>
    <languages>
      <language type="de">Deutsch</language>
      <language type="de" alt="variant">Hochdeutsch</language>
      <language type="fr">↑↑↑</language>
    </languages>
  </localeDisplayNames>
  <characterLabels>
    <characterLabel type="flags">Flaggen</characterLabel>
  </characterLabels>
</ldml>"#;

#[test]
fn streaming_gives_matching_starts_and_all_texts() {
    let doc = "<a><b x=\"1\">one</b><c>two</c></a>";
    let evs = parse_xml_streaming(doc, &path(&["a", "b"]));
    assert_eq!(evs.len(), 3);
    match &evs[0] {
        ParseEvent::Start(attrs) => assert_eq!(attrs.get("x").map(String::as_str), Some("1")),
        _ => panic!("expected the opening tag"),
    }
    // the single listener receives every text
    assert_eq!(texts(&evs), vec!["one", "two"]);
}

#[test]
fn build_streaming_gives_only_texts_at_the_path() {
    let doc = "<a><b x=\"1\">one</b><c>two</c><b/></a>";
    let evs = build_streaming(doc, &path(&["a", "b"]));
    // the tag, its text, and the tag without content
    assert_eq!(evs.len(), 3);
    assert_eq!(texts(&evs), vec!["one"]);
}

#[test]
fn multiple_listeners_are_tagged() {
    let doc = "<a><b>one</b><c>two</c></a>";
    let paths = vec![path(&["a", "c"]), path(&["a", "b"])];
    let evs = parse_xml_multiple(doc, &paths);
    let tags: Vec<usize> = evs.iter().map(|(k, _)| *k).collect();
    assert_eq!(tags, vec![1, 1, 0, 0]);
}

#[test]
fn streaming_errors() {
    assert_eq!(
        parse_xml_streaming_checked("<a></b>", &path(&["a"])).err(),
        Some(XmlError::Syntax)
    );
    assert_eq!(
        parse_xml_streaming_checked("</a>", &path(&["a"])).err(),
        Some(XmlError::Syntax)
    );
    assert_eq!(
        parse_xml_streaming_checked("<a x></a>", &path(&["a"])).err(),
        Some(XmlError::Attribute)
    );
    // attributes of a tag that reaches no listener are not read
    assert!(parse_xml_streaming_checked("<a><b x></b></a>", &path(&["a"])).is_ok());
    assert_eq!(
        build_streaming_checked("<a><b x></b></a>", &path(&["a", "b"])).err(),
        Some(XmlError::Attribute)
    );
    assert!(build_streaming_checked("<a><b x></b></a>", &path(&["a"])).is_ok());
    assert_eq!(
        parse_xml_multiple_checked("<a></b>", &vec![path(&["a"])]).err(),
        Some(XmlError::Syntax)
    );
}

#[test]
fn read_xml_trims_and_skips() {
    let evs = read_xml("<?xml version=\"1.0\"?>\n<!-- c -->\n<a>  x  <b/>\n \n</a>").expect("reads");
    // start a, text x, empty b, end a
    assert_eq!(evs.len(), 4);
}

#[test]
fn trimming_xml_space() {
    assert_eq!(xml_trimmed(&" \t\r\nabc d\n".to_string()), "abc d");
    assert_eq!(xml_trimmed(&"\u{a0}x\u{a0}".to_string()), "\u{a0}x\u{a0}");
    assert_eq!(xml_trimmed(&"   ".to_string()), "");
}

#[test]
fn runtime_languages_keep_everything() {
    let m = parse_languages(LANGS);
    // a later element of the same type wins
    assert_eq!(m.get("de").map(String::as_str), Some("Hochdeutsch"));
    assert_eq!(m.get("fr").map(String::as_str), Some("↑↑↑"));
}

#[test]
fn build_languages_skip_alternatives_and_deferrals() {
    let m = build_languages(LANGS);
    assert_eq!(m.get("de").map(String::as_str), Some("Deutsch"));
    assert!(m.get("fr").is_none());
}

#[test]
fn language_needs_type() {
    let doc = "<ldml><localeDisplayNames><languages><language>x</language></languages></localeDisplayNames></ldml>";
    assert_eq!(parse_languages_checked(doc).err(), Some(XmlError::MissingAttribute));
    assert_eq!(build_languages_checked(doc).err(), Some(XmlError::MissingAttribute));
}

#[test]
fn charlabels_of_a_locale() {
    let m = parse_charlabels(LANGS);
    assert_eq!(m.get("flags").map(String::as_str), Some("Flaggen"));
    assert!(m.get("de").is_none());
}

const TTS: &str = r#"<ldml><annotations>
<annotation cp="🐶">chien | animal</annotation>
<annotation cp="🐶" type="tts">chien</annotation>
<annotation cp="🐱" type="tts">chat</annotation>
</annotations></ldml>"#;

const TTS_DERIVED: &str = r#"<ldml><annotations>
<annotation cp="🐱" type="tts">chat domestique</annotation>
<annotation cp="🐈" type="tts">chat</annotation>
</annotations></ldml>"#;

#[test]
fn annotations_keywords_accumulate() {
    let doc = r#"<ldml><annotations>
<annotation cp="🐶">chien</annotation>
<annotation cp="🐶">toutou | ami </annotation>
</annotations></ldml>"#;
    let m = parse_annotations(doc);
    let a = m.get("🐶").expect("annotated");
    assert_eq!(a.notes, vec!["chien", "toutou", "ami"]);
    assert_eq!(a.tts, "");
}

#[test]
fn annotation_needs_cp() {
    let doc = "<ldml><annotations><annotation>x</annotation></annotations></ldml>";
    assert_eq!(parse_annotations_checked(doc).err(), Some(XmlError::MissingAttribute));
    assert_eq!(parse_tts_checked(doc).err(), Some(XmlError::MissingAttribute));
}

#[test]
fn spoken_names() {
    let m = parse_tts(TTS);
    assert_eq!(m.get("🐶").map(String::as_str), Some("chien"));
    assert_eq!(m.get("🐱").map(String::as_str), Some("chat"));
}

#[test]
fn derived_names_replace() {
    let langs = path(&["fr"]);
    let m = load_annotations(&langs, &path(&[TTS]), &path(&[TTS_DERIVED]));
    let fr = m.get("fr").expect("loaded");
    assert_eq!(fr.get("🐱").map(String::as_str), Some("chat domestique"));
    assert_eq!(fr.get("🐶").map(String::as_str), Some("chien"));
    assert_eq!(fr.get("🐈").map(String::as_str), Some("chat"));
}

#[test]
fn derived_names_error() {
    let langs = path(&["fr"]);
    let r = load_annotations_checked(&langs, &path(&[TTS]), &path(&["<a></b>"]));
    assert_eq!(r.err(), Some(XmlError::Syntax));
}

#[test]
fn texts_reach_listeners_trimmed() {
    let doc = "<a>\n   padded text \t\n<b> </b>\r\n</a>";
    let evs = parse_xml_streaming(doc, &path(&["a"]));
    assert_eq!(texts(&evs), vec!["padded text"]);
}

#[test]
fn start_event_extends_the_path_and_reaches_listeners() {
    let paths = vec![path(&["a", "b"]), path(&["a", "c"])];
    let mut attrs = TextMap::new();
    attrs.insert("type".to_string(), "x".to_string());
    let mut open = path(&["a"]);
    let mut out = Vec::new();
    process_start_event(&"b".to_string(), &Ok(attrs), &mut open, &paths, &mut out);
    assert_eq!(open, path(&["a", "b"]));
    assert_eq!(out.len(), 1);
    assert_eq!(out[0].0, 0);
    match &out[0].1 {
        ParseEvent::Start(a) => assert_eq!(a.get("type").map(String::as_str), Some("x")),
        _ => panic!("expected the opening tag"),
    }
    // unreadable attributes of a tag that no listener waits for
    let mut other = path(&["a"]);
    process_start_event(&"d".to_string(), &Err(XmlError::Attribute), &mut other, &paths, &mut out);
    assert_eq!(other, path(&["a", "d"]));
    assert_eq!(out.len(), 1);
}
