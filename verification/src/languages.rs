//! The names of languages in one locale, read from its CLDR locale file.
use vstd::prelude::*;
use crate::collect::{language_path, language_path_exec, path_values, spec_path_values_doc, string_map};
use crate::table::TextMap;
use crate::xml::{XmlError, read_xml};

verus! {

/// The names of languages of the locale file `s`, or the error that stops
/// its reading.
fn parse_languages_result(s: &str) -> (r: Result<TextMap<String>, XmlError>)
    ensures
        match r {
            Ok(m) => spec_path_values_doc(s@, language_path(), false, false) == Ok::<
                Map<Seq<char>, Seq<char>>,
                XmlError,
            >(string_map(m@)),
            Err(e) => spec_path_values_doc(s@, language_path(), false, false) == Err::<
                Map<Seq<char>, Seq<char>>,
                XmlError,
            >(e),
        },
{
    let events = read_xml(s)?;
    let path = language_path_exec();
    path_values(&events, &path, false, false)
}

/// The names of languages of the locale file `s`: each `<language>` element
/// under `ldml/localeDisplayNames/languages`, its `type` mapped to its text.
/// The file must be well formed and give each of these elements a `type`.
pub fn parse_languages(s: &str) -> (r: TextMap<String>)
    requires
        spec_path_values_doc(s@, language_path(), false, false) is Ok,
    ensures
        spec_path_values_doc(s@, language_path(), false, false) == Ok::<
            Map<Seq<char>, Seq<char>>,
            XmlError,
        >(string_map(r@)),
{
    match parse_languages_result(s) {
        Ok(m) => m,
        Err(_) => {
            assert(false);
            TextMap::new()
        },
    }
}

/// The names of languages of the locale file `s` as `parse_languages` reads
/// them, or the error that stops the reading.
pub fn parse_languages_checked(s: &str) -> (r: Result<TextMap<String>, XmlError>)
    ensures
        match r {
            Ok(m) => spec_path_values_doc(s@, language_path(), false, false) == Ok::<
                Map<Seq<char>, Seq<char>>,
                XmlError,
            >(string_map(m@)),
            Err(e) => spec_path_values_doc(s@, language_path(), false, false) == Err::<
                Map<Seq<char>, Seq<char>>,
                XmlError,
            >(e),
        },
{
    match parse_languages_result(s) {
        Err(e) => Err(e),
        Ok(_) => Ok(parse_languages(s)),
    }
}

} // verus!
