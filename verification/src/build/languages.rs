//! The names of languages in one locale, as the table generator reads them:
//! alternative names (with an `alt` attribute) are passed over, and so are
//! the names `↑↑↑` that defer to the parent locale.
use vstd::prelude::*;
use crate::build::xml::{spec_single, stream_single};
use crate::collect::{collect_type_values, language_path, language_path_exec, spec_type_values, string_map};
use crate::table::TextMap;
use crate::xml::{XmlError, XmlEvent, event_models, read_xml, spec_read_xml};

verus! {

/// The names of languages that the locale file `doc` gives.
pub open spec fn spec_build_languages(doc: Seq<char>) -> Result<
    Map<Seq<char>, Seq<char>>,
    XmlError,
> {
    match spec_read_xml(doc) {
        Err(e) => Err(e),
        Ok(evs) => match spec_single(evs, language_path()) {
            Err(e) => Err(e),
            Ok(items) => spec_type_values(items, true, true),
        },
    }
}

/// The names of languages of the locale file `s`, or the error that stops
/// its reading.
fn parse_languages_result(s: &str) -> (r: Result<TextMap<String>, XmlError>)
    ensures
        match r {
            Ok(m) => spec_build_languages(s@) == Ok::<
                Map<Seq<char>, Seq<char>>,
                XmlError,
            >(string_map(m@)),
            Err(e) => spec_build_languages(s@) == Err::<Map<Seq<char>, Seq<char>>, XmlError>(e),
        },
{
    let events = read_xml(s)?;
    let path = language_path_exec();
    let items = stream_single(&events, &path)?;
    collect_type_values(&items, true, true)
}

/// The names of languages of the locale file `s`: each `<language>`
/// element under `ldml/localeDisplayNames/languages`, its `type` mapped to
/// its text. The file must be well formed and give each of these elements
/// a `type`.
pub fn parse_languages(s: &str) -> (r: TextMap<String>)
    requires
        spec_build_languages(s@) is Ok,
    ensures
        spec_build_languages(s@) == Ok::<Map<Seq<char>, Seq<char>>, XmlError>(string_map(r@)),
{
    match parse_languages_result(s) {
        Ok(m) => m,
        Err(_) => {
            assert(false);
            TextMap::new()
        },
    }
}

/// The names of languages of the locale file `s` as `parse_languages` reads
/// them, or the error that stops the reading.
pub fn parse_languages_checked(s: &str) -> (r: Result<TextMap<String>, XmlError>)
    ensures
        match r {
            Ok(m) => spec_build_languages(s@) == Ok::<
                Map<Seq<char>, Seq<char>>,
                XmlError,
            >(string_map(m@)),
            Err(e) => spec_build_languages(s@) == Err::<Map<Seq<char>, Seq<char>>, XmlError>(e),
        },
{
    match parse_languages_result(s) {
        Err(e) => Err(e),
        Ok(_) => Ok(parse_languages(s)),
    }
}

} // verus!
