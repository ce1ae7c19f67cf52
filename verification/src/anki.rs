//! The Anki deck, note and card model of `genanki_rs_rev`.
//!
//! A deck is modelled by what it was made with (`deck_info`) and by the
//! fields of its notes, in the order in which they were added
//! (`deck_notes`); a note by its fields (`note_fields`).
use vstd::prelude::*;
use genanki_rs_rev::{Deck, Field, Model, ModelType, Note, Template};

verus! {

#[verifier::external_type_specification]
#[verifier::external_body]
pub struct ExDeck(Deck);

#[verifier::external_type_specification]
#[verifier::external_body]
pub struct ExNote(Note);

#[verifier::external_type_specification]
#[verifier::external_body]
pub struct ExModel(Model);

#[verifier::external_type_specification]
#[verifier::external_body]
pub struct ExField(Field);

#[verifier::external_type_specification]
#[verifier::external_body]
pub struct ExTemplate(Template);

#[verifier::external_type_specification]
#[verifier::external_body]
pub struct ExModelType(ModelType);

#[verifier::external_type_specification]
#[verifier::external_body]
pub struct ExAnkiError(genanki_rs_rev::Error);

/// The fields of the notes of a deck, in the order in which they were
/// added.
pub uninterp spec fn deck_notes(d: Deck) -> Seq<Seq<Seq<char>>>;

/// The card models of the notes of a deck, in the order in which they were
/// added.
pub uninterp spec fn deck_note_models(d: Deck) -> Seq<ModelParts>;

/// The identifier, name and description that a deck was made with.
pub uninterp spec fn deck_info(d: Deck) -> (i64, Seq<char>, Seq<char>);

/// The fields of a note.
pub uninterp spec fn note_fields(n: Note) -> Seq<Seq<char>>;

/// The card model of a note.
pub uninterp spec fn note_model(n: Note) -> ModelParts;

/// Whether `Note::new` can make the cards of a note of a model with these
/// parts: for a basic model, whether `Model::req` computes the required
/// fields of its templates (it fails where a template does not parse or
/// names no field); a cloze model always can.
pub uninterp spec fn model_accepted(m: ModelParts) -> bool;

/// `Deck::new`: an empty deck with the given identifier, name and
/// description.
#[verifier::external_body]
pub(crate) fn new_deck(id: i64, name: &str, description: &str) -> (r: Deck)
    ensures
        deck_info(r) == (id, name@, description@),
        deck_notes(r) == Seq::<Seq<Seq<char>>>::empty(),
        deck_note_models(r) == Seq::<ModelParts>::empty(),
{
    Deck::new(id, name, description)
}

/// `Deck::add_note`: the note is added after the others; identifier, name
/// and description stay.
#[verifier::external_body]
pub(crate) fn add_note(deck: &mut Deck, note: Note)
    ensures
        deck_info(*final(deck)) == deck_info(*old(deck)),
        deck_notes(*final(deck)) == deck_notes(*old(deck)).push(note_fields(note)),
        deck_note_models(*final(deck)) == deck_note_models(*old(deck)).push(note_model(note)),
{
    deck.add_note(note)
}

/// A field name that `Model::req` can put into a regular expression as it
/// stands: ASCII letters, digits and `_` only.
pub open spec fn plain_name(s: Seq<char>) -> bool {
    forall|k: int|
        0 <= k < s.len() ==> ('a' <= #[trigger] s[k] <= 'z') || ('A' <= s[k] <= 'Z') || ('0'
            <= s[k] <= '9') || s[k] == '_'
}

/// `Note::new`: a note of the model with the given fields. It succeeds
/// exactly where the number of fields is the model's and the model is
/// accepted (`model_accepted`); the note holds the given fields and the
/// model. `Model::req` builds a regular expression from each field name
/// and panics where it is not one, and a cloze model without templates
/// panics; those models are left out.
#[verifier::external_body]
pub(crate) fn new_note(model: Model, fields: Vec<&str>) -> (r: Result<Note, genanki_rs_rev::Error>)
    requires
        forall|i: int|
            0 <= i < model_parts(model).fields.len() ==> plain_name(
                #[trigger] model_parts(model).fields[i].name,
            ),
        model_parts(model).basic || model_parts(model).templates.len() > 0,
    ensures
        r is Ok <==> (fields.len() == model_parts(model).fields.len() && model_accepted(
            model_parts(model),
        )),
        r matches Ok(n) ==> note_fields(n) == fields@.map_values(|f: &str| f@) && note_model(n)
            == model_parts(model),
{
    Note::new(model, fields)
}

/// The LaTeX preamble that a card model has by default.
pub const DEFAULT_LATEX_PRE: &'static str = r#"
\documentclass[12pt]{article}
\special{papersize:3in,5in}
\usepackage[utf8]{inputenc}
\usepackage{amssymb,amsmath}
\pagestyle{empty}
\setlength{\parindent:0in}
\begin{document}

"#;

/// The LaTeX postamble that a card model has by default.
pub const DEFAULT_LATEX_POST: &'static str = r"\end{document}";

/// What a field of a card model holds: its name, font, font size,
/// right-to-left setting and stickiness, each optional but the name.
pub struct FieldParts {
    pub name: Seq<char>,
    pub font: Option<Seq<char>>,
    pub size: Option<i64>,
    pub rtl: Option<bool>,
    pub sticky: Option<bool>,
}

/// What a card template holds: its name, question format and answer
/// format.
pub struct TemplateParts {
    pub name: Seq<char>,
    pub qfmt: Seq<char>,
    pub afmt: Seq<char>,
}

/// What a card model holds: identifier, name, fields, templates, style
/// sheet, whether it is a basic (not cloze) model, LaTeX preamble and
/// postamble, and the index of the sort field.
pub struct ModelParts {
    pub id: i64,
    pub name: Seq<char>,
    pub fields: Seq<FieldParts>,
    pub templates: Seq<TemplateParts>,
    pub css: Seq<char>,
    pub basic: bool,
    pub latex_pre: Seq<char>,
    pub latex_post: Seq<char>,
    pub sort_field_index: i64,
}

/// What a field holds.
pub uninterp spec fn field_parts(f: Field) -> FieldParts;

/// What a template holds.
pub uninterp spec fn template_parts(t: Template) -> TemplateParts;

/// What a card model holds.
pub uninterp spec fn model_parts(m: Model) -> ModelParts;

/// `Field::new`: a field with the given name and no other setting.
#[verifier::external_body]
pub(crate) fn new_field(name: &str) -> (r: Field)
    ensures
        field_parts(r) == (FieldParts {
            name: name@,
            font: None,
            size: None,
            rtl: None,
            sticky: None,
        }),
{
    Field::new(name)
}

/// `Field::font`: the field with the given font, its other settings kept.
#[verifier::external_body]
pub(crate) fn field_font(field: Field, font: &str) -> (r: Field)
    ensures
        field_parts(r) == (FieldParts { font: Some(font@), ..field_parts(field) }),
{
    field.font(font)
}

/// `Template::new`: a template with the given name and empty formats.
#[verifier::external_body]
pub(crate) fn new_template(name: &str) -> (r: Template)
    ensures
        template_parts(r) == (TemplateParts { name: name@, qfmt: seq![], afmt: seq![] }),
{
    Template::new(name)
}

/// `Template::qfmt`: the template with the given question format, the rest
/// kept.
#[verifier::external_body]
pub(crate) fn template_qfmt(template: Template, qfmt: &str) -> (r: Template)
    ensures
        template_parts(r) == (TemplateParts { qfmt: qfmt@, ..template_parts(template) }),
{
    template.qfmt(qfmt)
}

/// `Template::afmt`: the template with the given answer format, the rest
/// kept.
#[verifier::external_body]
pub(crate) fn template_afmt(template: Template, afmt: &str) -> (r: Template)
    ensures
        template_parts(r) == (TemplateParts { afmt: afmt@, ..template_parts(template) }),
{
    template.afmt(afmt)
}

/// `Model::with_options`: a card model with the given identifier, name,
/// fields and templates in order; each option that is given is taken; an
/// absent style sheet is empty, an absent model type makes a basic model,
/// absent LaTeX parts are the defaults, and an absent sort field index is
/// 0.
#[verifier::external_body]
pub(crate) fn model_with_options(
    id: i64,
    name: &str,
    fields: Vec<Field>,
    templates: Vec<Template>,
    css: Option<&str>,
    model_type: Option<ModelType>,
    latex_pre: Option<&str>,
    latex_post: Option<&str>,
    sort_field_index: Option<i64>,
) -> (r: Model)
    ensures
        model_parts(r).id == id,
        model_parts(r).name == name@,
        model_parts(r).fields == fields@.map_values(|f: Field| field_parts(f)),
        model_parts(r).templates == templates@.map_values(|t: Template| template_parts(t)),
        model_parts(r).css == match css {
            Some(c) => c@,
            None => Seq::<char>::empty(),
        },
        model_type is None ==> model_parts(r).basic,
        model_parts(r).latex_pre == match latex_pre {
            Some(l) => l@,
            None => DEFAULT_LATEX_PRE@,
        },
        model_parts(r).latex_post == match latex_post {
            Some(l) => l@,
            None => DEFAULT_LATEX_POST@,
        },
        model_parts(r).sort_field_index == match sort_field_index {
            Some(k) => k,
            None => 0,
        },
{
    Model::with_options(
        id,
        name,
        fields,
        templates,
        css,
        model_type,
        latex_pre,
        latex_post,
        sort_field_index,
    )
}

} // verus!
