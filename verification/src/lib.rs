//! Emoji flashcards: the tables of names, categories and annotations that
//! the generator builds from the Unicode CLDR data, and the selection of
//! the cards of a deck.
pub mod text;
pub mod codec;
pub mod order;
pub mod anki;
pub mod cards;
pub mod table;
pub mod annot;
pub mod available;
pub mod statuses;
pub mod xml;
pub mod collect;
pub mod languages;
pub mod charlabels;
pub mod annotations;
pub mod build;
pub mod labels;

use vstd::prelude::*;
use genanki_rs_rev::{Deck, Field, Model, Template};
use crate::anki::{
    add_note, deck_info, deck_note_models, deck_notes, field_font, field_parts, model_accepted,
    model_parts, model_with_options, new_deck, new_field, new_note, new_template, plain_name,
    template_afmt, template_parts, template_qfmt, FieldParts, ModelParts, TemplateParts,
    DEFAULT_LATEX_POST, DEFAULT_LATEX_PRE,
};
use crate::available::{spec_categories, spec_language_translations};
use crate::cards::{emoji_rows, select_cards, spec_cards};
use crate::order::{
    lemma_pair_lt_facts, lemma_pair_lt_transitive, pair_lt, pairs_sorted, text_less,
};
use crate::text::{same_text, views};

verus! {

broadcast use vstd::seq_lib::group_to_multiset_ensures;

/// A code or category with its name in a language.
#[derive(Debug, PartialEq, Eq, PartialOrd, Ord)]
pub struct Pair {
    pub name: String,
    pub locale_name: String,
}

impl Pair {
    pub open spec fn model(&self) -> (Seq<char>, Seq<char>) {
        (self.name@, self.locale_name@)
    }
}

/// The models of a list of pairs.
pub open spec fn pairs_of(v: Seq<Pair>) -> Seq<(Seq<char>, Seq<char>)> {
    v.map_values(|p: Pair| p.model())
}

/// The pairs of a list of tuples.
fn to_pairs(v: Vec<(String, String)>) -> (r: Vec<Pair>)
    ensures
        pairs_of(r@) == crate::available::pair_views(v@),
{
    let mut out: Vec<Pair> = Vec::new();
    let mut i: usize = 0;
    while i < v.len()
        invariant
            i <= v.len(),
            pairs_of(out@) == crate::available::pair_views(v@.take(i as int)),
        decreases v.len() - i,
    {
        let p = Pair { name: v[i].0.clone(), locale_name: v[i].1.clone() };
        proof {
            assert(pairs_of(out@.push(p)) =~= pairs_of(out@).push(p.model()));
            assert(crate::available::pair_views(v@.take(i + 1)) =~= crate::available::pair_views(
                v@.take(i as int),
            ).push((v@[i as int].0@, v@[i as int].1@)));
        }
        out.push(p);
        i = i + 1;
    }
    assert(v@.take(v.len() as int) =~= v@);
    out
}

/// Whether `a` comes before `b`.
fn pair_less(a: &Pair, b: &Pair) -> (r: bool)
    ensures
        r == pair_lt(a.model(), b.model()),
{
    text_less(a.name.as_str(), b.name.as_str()) || (same_text(a.name.as_str(), b.name.as_str())
        && text_less(a.locale_name.as_str(), b.locale_name.as_str()))
}

/// The pairs in order; equal pairs keep their order.
pub fn sort_pairs(v: &Vec<Pair>) -> (r: Vec<Pair>)
    ensures
        pairs_sorted(pairs_of(r@)),
        pairs_of(r@).to_multiset() == pairs_of(v@).to_multiset(),
{
    let mut out: Vec<Pair> = Vec::new();
    let mut i: usize = 0;
    while i < v.len()
        invariant
            i <= v.len(),
            pairs_sorted(pairs_of(out@)),
            pairs_of(out@).to_multiset() == pairs_of(v@.take(i as int)).to_multiset(),
        decreases v.len() - i,
    {
        let x = Pair { name: v[i].name.clone(), locale_name: v[i].locale_name.clone() };
        let ghost s = pairs_of(out@);
        let mut k: usize = 0;
        while k < out.len() && !pair_less(&x, &out[k])
            invariant
                k <= out.len(),
                s == pairs_of(out@),
                forall|j: int| 0 <= j < k ==> !pair_lt(x.model(), #[trigger] s[j]),
            decreases out.len() - k,
        {
            k = k + 1;
        }
        proof {
            let t = s.insert(k as int, x.model());
            assert forall|a: int, b: int| 0 <= a < b < t.len() implies !pair_lt(
                #[trigger] t[b],
                #[trigger] t[a],
            ) by {
                if b < k {
                    assert(t[a] == s[a] && t[b] == s[b]);
                } else if b == k {
                    assert(t[a] == s[a] && t[b] == x.model());
                } else if a == k {
                    assert(t[b] == s[b - 1]);
                    lemma_pair_lt_facts(x.model(), s[k as int]);
                    if pair_lt(s[b - 1], x.model()) {
                        lemma_pair_lt_transitive(s[b - 1], x.model(), s[k as int]);
                    }
                } else if a < k {
                    assert(t[a] == s[a] && t[b] == s[b - 1]);
                } else {
                    assert(t[a] == s[a - 1] && t[b] == s[b - 1]);
                }
            }
            assert(pairs_of(v@.take(i + 1)) =~= pairs_of(v@.take(i as int)).push(x.model()));
        }
        out.insert(k, x);
        assert(pairs_of(out@) =~= s.insert(k as int, x.model()));
        i = i + 1;
    }
    assert(v@.take(v.len() as int) =~= v@);
    out
}

/// Why a deck could not be made.
#[derive(Clone, Copy, Debug, PartialEq, Eq, Structural)]
pub enum DeckError {
    /// The card model rejected a note.
    NoteRejected,
}

/// The identifier of the decks.
pub const DECK_ID: i64 = 20260717;

/// The identifier of the card model.
pub const MODEL_ID: i64 = 1784196000;

/// The style sheet of the cards.
pub const CARD_CSS: &'static str = ".card {
                    font-family: arial;
                    font-size: 20px;
                    line-height: 1.5;
                    text-align: center;
                    color: black;
                    background-color: white;
                }
                .emoji {
                    font-size: 90px; \
                    text-shadow: 0 0 45px #ffffff; \
                }
            ";

/// A field of the card model: the name, in Arial.
pub open spec fn card_field(name: Seq<char>) -> FieldParts {
    FieldParts { name, font: Some("Arial"@), size: None, rtl: None, sticky: None }
}

/// The card model of the notes: an emoji on the front, large, and its
/// annotation on the back, both in Arial.
pub open spec fn card_model() -> ModelParts {
    ModelParts {
        id: MODEL_ID,
        name: "EmojiAnki Base card"@,
        fields: seq![card_field("Front"@), card_field("Back"@)],
        templates: seq![
            TemplateParts {
                name: "Card 1"@,
                qfmt: "<div class=\"emoji\">{{Front}}</div>"@,
                afmt: "{{FrontSide}}\n\n<hr id=answer>\n\n{{Back}}"@,
            },
        ],
        css: CARD_CSS@,
        basic: true,
        latex_pre: DEFAULT_LATEX_PRE@,
        latex_post: DEFAULT_LATEX_POST@,
        sort_field_index: 0,
    }
}

proof fn lemma_card_field_names_plain()
    ensures
        forall|i: int|
            0 <= i < card_model().fields.len() ==> plain_name(#[trigger] card_model().fields[i].name),
{
    reveal_strlit("Front");
    reveal_strlit("Back");
    assert(plain_name("Front"@));
    assert(plain_name("Back"@));
    assert forall|i: int| 0 <= i < card_model().fields.len() implies plain_name(
        #[trigger] card_model().fields[i].name,
    ) by {
        if i == 0 {
            assert(card_model().fields[i].name == "Front"@);
        } else {
            assert(card_model().fields[i].name == "Back"@);
        }
    }
}

/// The cards of a deck with their two fields: the emoji, then its
/// annotation.
pub open spec fn card_fields(cards: Seq<(Seq<char>, Seq<char>)>) -> Seq<Seq<Seq<char>>> {
    cards.map_values(|c: (Seq<char>, Seq<char>)| seq![c.0, c.1])
}

/// The tables that the generator writes, and the emoji list of each
/// category: what the flashcard maker reads.
pub struct EmojiAnki {
    /// The language codes, each followed by NUL.
    pub available: String,
    /// The name of each language in each language (see `codec`).
    pub translations: String,
    /// The category codes, each followed by NUL.
    pub categories_available: String,
    /// The name of each category in each language (see `codec`).
    pub categories_translations: String,
    /// The categories in order, each with its emojis.
    pub emojis: Vec<(String, Vec<String>)>,
}

impl EmojiAnki {
    /// The flashcard maker over the given tables.
    pub fn new(
        available: String,
        translations: String,
        categories_available: String,
        categories_translations: String,
        emojis: Vec<(String, Vec<String>)>,
    ) -> (r: Self)
        ensures
            r.available == available,
            r.translations == translations,
            r.categories_available == categories_available,
            r.categories_translations == categories_translations,
            r.emojis == emojis,
    {
        EmojiAnki { available, translations, categories_available, categories_translations, emojis }
    }

    /// The language codes.
    pub fn locales(&self) -> (r: Vec<String>)
        ensures
            views(r@) == crate::text::split_seq(self.available@, seq!['\0']),
    {
        crate::available::locales(self.available.as_str())
    }

    /// The names of the languages in the language `lang`.
    pub fn languages(&self, lang: String) -> (r: Vec<Pair>)
        requires
            spec_language_translations(lang@, self.available@, self.translations@) is Ok,
        ensures
            spec_language_translations(lang@, self.available@, self.translations@) == Ok::<
                Seq<(Seq<char>, Seq<char>)>,
                Seq<char>,
            >(pairs_of(r@)),
    {
        let v = crate::available::language_translations(
            lang.as_str(),
            self.available.as_str(),
            self.translations.as_str(),
        );
        match v {
            Ok(v) => to_pairs(v),
            Err(_) => Vec::new(),
        }
    }

    /// The names of the categories in the language `lang`, in order.
    pub fn categories(&self, lang: String) -> (r: Vec<Pair>)
        requires
            spec_categories(
                lang@,
                self.available@,
                self.categories_available@,
                self.categories_translations@,
            ) is Ok,
        ensures
            pairs_sorted(pairs_of(r@)),
            pairs_of(r@).to_multiset() == spec_categories(
                lang@,
                self.available@,
                self.categories_available@,
                self.categories_translations@,
            )->Ok_0.to_multiset(),
    {
        let v = crate::available::categories(
            lang.as_str(),
            self.available.as_str(),
            self.categories_available.as_str(),
            self.categories_translations.as_str(),
        );
        match v {
            Ok(v) => sort_pairs(&to_pairs(v)),
            Err(_) => Vec::new(),
        }
    }

    /// The deck named `name` of the cards of the selected categories: each
    /// emoji with its annotation from the table `annotations`, where it has
    /// one, in the order of the emoji list.
    pub fn generate_set(&self, name: String, annotations: &[u8], categories: Vec<String>) -> (r:
        Result<Deck, DeckError>)
        requires
            vstd::utf8::valid_utf8(annotations@),
        ensures
            r matches Ok(d) ==> {
                &&& deck_info(d) == (
                    DECK_ID,
                    name@,
                    "EmojiAnki: https://anisse.github.io/emojianki"@,
                )
                &&& deck_notes(d) == card_fields(
                    spec_cards(
                        emoji_rows(self.emojis@),
                        crate::annot::annots_seq(vstd::utf8::decode_utf8(annotations@)),
                        views(categories@),
                    ),
                )
            },
            r matches Ok(d) ==> deck_note_models(d) == Seq::new(
                spec_cards(
                    emoji_rows(self.emojis@),
                    crate::annot::annots_seq(vstd::utf8::decode_utf8(annotations@)),
                    views(categories@),
                ).len(),
                |k: int| card_model(),
            ),
            r is Ok <==> (spec_cards(
                emoji_rows(self.emojis@),
                crate::annot::annots_seq(vstd::utf8::decode_utf8(annotations@)),
                views(categories@),
            ).len() == 0 || model_accepted(card_model())),
    {
        let text = crate::xml::utf8_text(annotations).unwrap();
        let annots = crate::annot::parse_annots(text.as_str());
        let cards = select_cards(&self.emojis, &annots, &categories);
        let ghost cs = crate::available::pair_views(cards@);
        let mut deck = new_deck(DECK_ID, name.as_str(), "EmojiAnki: https://anisse.github.io/emojianki");
        let mut i: usize = 0;
        while i < cards.len()
            invariant
                i <= cards.len(),
                cs == crate::available::pair_views(cards@),
                cs == spec_cards(
                    emoji_rows(self.emojis@),
                    crate::annot::annots_seq(vstd::utf8::decode_utf8(annotations@)),
                    views(categories@),
                ),
                deck_info(deck) == (
                    DECK_ID,
                    name@,
                    "EmojiAnki: https://anisse.github.io/emojianki"@,
                ),
                deck_notes(deck) == card_fields(cs.take(i as int)),
                deck_note_models(deck) == Seq::new(i as nat, |k: int| card_model()),
                i > 0 ==> model_accepted(card_model()),
            decreases cards.len() - i,
        {
            proof {
                lemma_card_field_names_plain();
            }
            let mut fields: Vec<&str> = Vec::new();
            fields.push(cards[i].0.as_str());
            fields.push(cards[i].1.as_str());
            let note = match new_note(Self::anki_model(), fields) {
                Ok(n) => n,
                Err(_) => return Err(DeckError::NoteRejected),
            };
            proof {
                assert(fields@.map_values(|f: &str| f@) =~= seq![cs[i as int].0, cs[i as int].1]);
                assert(card_fields(cs.take(i + 1)) =~= card_fields(cs.take(i as int)).push(
                    seq![cs[i as int].0, cs[i as int].1],
                ));
            }
            add_note(&mut deck, note);
            assert(deck_note_models(deck) =~= Seq::new((i + 1) as nat, |k: int| card_model()));
            i = i + 1;
        }
        assert(cs.take(cards.len() as int) =~= cs);
        assert(deck_note_models(deck) =~= Seq::new(cs.len(), |k: int| card_model()));
        Ok(deck)
    }

    /// The card model: the emoji on the front, large; its annotation on
    /// the back.
    fn anki_model() -> (r: Model)
        ensures
            model_parts(r) == card_model(),
    {
        let mut fields = Vec::new();
        fields.push(field_font(new_field("Front"), "Arial"));
        fields.push(field_font(new_field("Back"), "Arial"));
        let mut templates = Vec::new();
        templates.push(
            template_afmt(
                template_qfmt(
                    template_qfmt(new_template("Card 1"), "{{Front}}"),
                    "<div class=\"emoji\">{{Front}}</div>",
                ),
                "{{FrontSide}}\n\n<hr id=answer>\n\n{{Back}}",
            ),
        );
        assert(fields@.map_values(|f: Field| field_parts(f)) =~= seq![
            card_field("Front"@),
            card_field("Back"@),
        ]);
        assert(templates@.map_values(|t: Template| template_parts(t)) =~= seq![
            TemplateParts {
                name: "Card 1"@,
                qfmt: "<div class=\"emoji\">{{Front}}</div>"@,
                afmt: "{{FrontSide}}\n\n<hr id=answer>\n\n{{Back}}"@,
            },
        ]);
        model_with_options(
            MODEL_ID,
            "EmojiAnki Base card",
            fields,
            templates,
            Some(CARD_CSS),
            None,
            None,
            None,
            None,
        )
    }
}

} // verus!
