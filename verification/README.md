# Emoji Anki

Emoji Anki makes Anki flashcard decks of emojis, with their names in 150+
languages, from the Unicode CLDR data. This crate is its library, verified
with Verus: the functions in `src/` state their results in their contracts
and are proved against them; the calls into `quick_xml`, ICU, genanki and a
few std functions go through trusted wrappers whose contracts are believed.

## Layout

- `src/text.rs`, `src/table.rs`, `src/order.rs`: texts as character
  sequences (split, join, replace, trim), a map keyed by text, and the order
  of texts.
- `src/codec.rs`: the text format of the generated tables (NUL-terminated
  lists, tables of lists) and the laws that reading gives back a write.
- `src/xml.rs`, `src/build/xml.rs`: the events of an XML document (the
  tokens come from `quick_xml`, named in the contracts) and what reaches
  listeners waiting at element paths.
- `src/collect.rs`, `src/languages.rs`, `src/charlabels.rs`,
  `src/annotations.rs`, `src/labels.rs`, `src/statuses.rs`: the readers of
  the CLDR files used at run time.
- `src/build/`: the table generator: locale files (`ldml.rs`), the names of
  locales composed from their parts (`tables.rs`), the written tables
  (`output.rs`), categories, labels and qualified emoji forms.
- `src/available.rs`, `src/annot.rs`, `src/cards.rs`, `src/anki.rs`,
  `src/lib.rs`: the run-time side: reading the tables, selecting the cards,
  and building the deck with `genanki_rs_rev`.
- `app/`: the `wasm_bindgen` interface, the packaging of decks, and the file
  reading of the table generator.
- `tests/`: the tests, run against the real outside crates.

## Inputs that are refused

A reader of a file whose contents must be well formed (a locale file, an
annotations file, `labels.txt`) requires that they are, and gives its result
as a plain value. Beside it, a function of the same name ending in
`_checked` reads the same file and returns the error for which it cannot be
read, where there is one; the file reading in `app/` goes through those.
