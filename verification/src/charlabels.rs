//! The labels of character categories in one locale, read from its CLDR locale file.
use vstd::prelude::*;
use crate::collect::{charlabel_path, charlabel_path_exec, path_values, spec_path_values_doc, string_map};
use crate::table::TextMap;
use crate::xml::{XmlError, read_xml};

verus! {

/// The labels of character categories of the locale file `s`, or the error
/// that stops its reading.
fn parse_charlabels_result(s: &str) -> (r: Result<TextMap<String>, XmlError>)
    ensures
        match r {
            Ok(m) => spec_path_values_doc(s@, charlabel_path(), false, false) == Ok::<
                Map<Seq<char>, Seq<char>>,
                XmlError,
            >(string_map(m@)),
            Err(e) => spec_path_values_doc(s@, charlabel_path(), false, false) == Err::<
                Map<Seq<char>, Seq<char>>,
                XmlError,
            >(e),
        },
{
    let events = read_xml(s)?;
    let path = charlabel_path_exec();
    path_values(&events, &path, false, false)
}

/// The labels of character categories of the locale file `s`: each
/// `<characterLabel>` element under `ldml/characterLabels`, its `type` mapped
/// to its text. The file must be well formed and give each of these
/// elements a `type`.
pub fn parse_charlabels(s: &str) -> (r: TextMap<String>)
    requires
        spec_path_values_doc(s@, charlabel_path(), false, false) is Ok,
    ensures
        spec_path_values_doc(s@, charlabel_path(), false, false) == Ok::<
            Map<Seq<char>, Seq<char>>,
            XmlError,
        >(string_map(r@)),
{
    match parse_charlabels_result(s) {
        Ok(m) => m,
        Err(_) => {
            assert(false);
            TextMap::new()
        },
    }
}

/// The labels of character categories of the locale file `s` as
/// `parse_charlabels` reads them, or the error that stops the reading.
pub fn parse_charlabels_checked(s: &str) -> (r: Result<TextMap<String>, XmlError>)
    ensures
        match r {
            Ok(m) => spec_path_values_doc(s@, charlabel_path(), false, false) == Ok::<
                Map<Seq<char>, Seq<char>>,
                XmlError,
            >(string_map(m@)),
            Err(e) => spec_path_values_doc(s@, charlabel_path(), false, false) == Err::<
                Map<Seq<char>, Seq<char>>,
                XmlError,
            >(e),
        },
{
    match parse_charlabels_result(s) {
        Err(e) => Err(e),
        Ok(_) => Ok(parse_charlabels(s)),
    }
}

} // verus!
