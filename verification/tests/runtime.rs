use emojianki::annot::parse_annots;
use emojianki::available::{categories, lang_parent, language_translations, locales, parent_of};
use emojianki::cards::select_cards;
use emojianki::order::text_less;
use emojianki::table::TextMap;
use emojianki::{sort_pairs, EmojiAnki, Pair};

const AVAILABLE: &str = "de\0de_AT\0en\0";
// rows: de, de_AT, en; entries: de, de_AT, en
const TRANSLATIONS: &str =
    "Deutsch\0Österreichisches Deutsch\0Englisch\0\0\u{1a}\0\u{1a}\0\u{18}\0\0German\0\u{18}\0English\0\0";
const CATEGORIES: &str = "Smileys\0Animals\0Flags\0";
const CATEGORY_NAMES: &str = "Smileys\0Tiere\0Flaggen\0\0Smileys\0Tiere\0Fahnen\0\0Smileys\0Animals\0Flags\0\0";

fn strings(v: &[&str]) -> Vec<String> {
    v.iter().map(|s| s.to_string()).collect()
}

fn pair(a: &str, b: &str) -> (String, String) {
    (a.to_string(), b.to_string())
}

fn maker() -> EmojiAnki {
    EmojiAnki::new(
        AVAILABLE.to_string(),
        TRANSLATIONS.to_string(),
        CATEGORIES.to_string(),
        CATEGORY_NAMES.to_string(),
        vec![
            ("Smileys".to_string(), strings(&["😀", "😃", "😄"])),
            ("Animals".to_string(), strings(&["🐶", "🐱"])),
            ("Flags".to_string(), strings(&["🇫🇷"])),
        ],
    )
}

#[test]
fn locales_split_on_nul() {
    assert_eq!(locales(AVAILABLE), strings(&["de", "de_AT", "en", ""]));
    assert_eq!(maker().locales(), strings(&["de", "de_AT", "en", ""]));
    assert_eq!(locales(""), strings(&[""]));
}

#[test]
fn parents() {
    assert_eq!(parent_of("de_AT"), "de");
    assert_eq!(parent_of("de"), "de");
    assert_eq!(lang_parent("de_AT", AVAILABLE), Ok((1, 0)));
    assert_eq!(lang_parent("xx", AVAILABLE), Err("xx not found".to_string()));
    assert_eq!(lang_parent("en_GB", AVAILABLE), Err("en_GB not found".to_string()));
    assert_eq!(
        lang_parent("xx_YY", "xx_YY\0"),
        Err("xx not found".to_string())
    );
}

#[test]
fn translations_of_a_language() {
    let v = language_translations("de", AVAILABLE, TRANSLATIONS).expect("listed");
    assert_eq!(
        v,
        vec![
            pair("de", "Deutsch"),
            pair("de_AT", "Österreichisches Deutsch"),
            pair("en", "Englisch")
        ]
    );
}

#[test]
fn substitute_takes_the_parent_and_cancel_drops() {
    let v = language_translations("de_AT", AVAILABLE, TRANSLATIONS).expect("listed");
    // de and de_AT from the parent; en has no translation
    assert_eq!(
        v,
        vec![pair("de", "Deutsch"), pair("de_AT", "Österreichisches Deutsch")]
    );
    let e = language_translations("en", AVAILABLE, TRANSLATIONS).expect("listed");
    assert_eq!(e, vec![pair("de", "German"), pair("en", "English")]);
}

#[test]
fn translations_errors() {
    assert_eq!(
        language_translations("fr", AVAILABLE, TRANSLATIONS),
        Err("fr not found".to_string())
    );
    assert_eq!(
        language_translations("en", AVAILABLE, "a\0b\0"),
        Err("en not in translations".to_string())
    );
    assert_eq!(
        language_translations("de_AT", "de_AT\0x\0de\0", "a\0\0b"),
        Err("de not in translations".to_string())
    );
}

#[test]
fn categories_of_a_language() {
    let v = categories("de_AT", AVAILABLE, CATEGORIES, CATEGORY_NAMES).expect("listed");
    assert_eq!(
        v,
        vec![
            pair("Smileys", "Smileys"),
            pair("Animals", "Tiere"),
            pair("Flags", "Fahnen")
        ]
    );
    assert_eq!(
        categories("fr", AVAILABLE, CATEGORIES, CATEGORY_NAMES),
        Err("fr not found".to_string())
    );
}

#[test]
fn maker_languages_and_sorted_categories() {
    let m = maker();
    let langs = m.languages("en".to_string());
    assert_eq!(
        langs,
        vec![
            Pair { name: "de".to_string(), locale_name: "German".to_string() },
            Pair { name: "en".to_string(), locale_name: "English".to_string() },
        ]
    );
    let cats = m.categories("de".to_string());
    assert_eq!(
        cats,
        vec![
            Pair { name: "Animals".to_string(), locale_name: "Tiere".to_string() },
            Pair { name: "Flags".to_string(), locale_name: "Flaggen".to_string() },
            Pair { name: "Smileys".to_string(), locale_name: "Smileys".to_string() },
        ]
    );
}

#[test]
fn sorting_pairs() {
    let v = vec![
        Pair { name: "b".to_string(), locale_name: "2".to_string() },
        Pair { name: "a".to_string(), locale_name: "9".to_string() },
        Pair { name: "b".to_string(), locale_name: "1".to_string() },
        Pair { name: "ä".to_string(), locale_name: "0".to_string() },
        Pair { name: "a".to_string(), locale_name: "9".to_string() },
    ];
    let mut expected = vec![
        Pair { name: "b".to_string(), locale_name: "2".to_string() },
        Pair { name: "a".to_string(), locale_name: "9".to_string() },
        Pair { name: "b".to_string(), locale_name: "1".to_string() },
        Pair { name: "ä".to_string(), locale_name: "0".to_string() },
        Pair { name: "a".to_string(), locale_name: "9".to_string() },
    ];
    expected.sort();
    assert_eq!(sort_pairs(&v), expected);
    assert!(sort_pairs(&Vec::new()).is_empty());
}

#[test]
fn text_order_is_string_order() {
    for (a, b) in [("a", "b"), ("", "a"), ("ab", "a"), ("Z", "a"), ("é", "z"), ("😀", "😃"), ("x", "x")] {
        assert_eq!(text_less(a, b), a < b, "{a} < {b}");
    }
}

#[test]
fn annotation_table() {
    let a = parse_annots("smile\0\u{18}\0grin\0\0dog\0cat");
    assert_eq!(
        a,
        vec![strings(&["smile", "", "grin"]), strings(&["dog", "cat"])]
    );
    assert_eq!(parse_annots(""), vec![strings(&[""])]);
}

#[test]
fn selected_cards() {
    let emojis = vec![
        ("Smileys".to_string(), strings(&["😀", "😃", "😄"])),
        ("Animals".to_string(), strings(&["🐶", "🐱"])),
        ("Flags".to_string(), strings(&["🇫🇷"])),
    ];
    let annots = vec![strings(&["smile", "", "grin", "extra"]), strings(&["dog"])];
    let cards = select_cards(&emojis, &annots, &strings(&["Animals", "Smileys", "Flags"]));
    assert_eq!(
        cards,
        vec![pair("😀", "smile"), pair("😄", "grin"), pair("🐶", "dog")]
    );
    let none = select_cards(&emojis, &annots, &strings(&["Objects"]));
    assert!(none.is_empty());
}

#[test]
fn deck_of_selected_cards() {
    let m = maker();
    let annotations = "sourire\0\u{18}\0rire\0\0chien\0chat\0\0drapeau";
    let deck = m
        .generate_set(
            "Mon deck".to_string(),
            annotations.as_bytes(),
            strings(&["Animals", "Smileys"]),
        )
        .ok()
        .expect("the notes are accepted");
    assert_eq!(deck.id, 20260717);
    assert_eq!(deck.name, "Mon deck");
    assert_eq!(deck.description, "EmojiAnki: https://anisse.github.io/emojianki");
    let fields: Vec<Vec<String>> = deck.notes().iter().map(|n| n.fields().to_vec()).collect();
    assert_eq!(
        fields,
        vec![
            strings(&["😀", "sourire"]),
            strings(&["😄", "rire"]),
            strings(&["🐶", "chien"]),
            strings(&["🐱", "chat"]),
        ]
    );
}

#[test]
fn empty_deck() {
    let m = maker();
    let deck = m
        .generate_set("Vide".to_string(), b"", Vec::new())
        .ok()
        .expect("no notes");
    assert!(deck.is_empty());
}

#[test]
fn text_map_insert_get_extend() {
    let mut m: TextMap<u32> = TextMap::new();
    assert!(m.get("a").is_none());
    m.insert("a".to_string(), 1);
    m.insert("b".to_string(), 2);
    m.insert("a".to_string(), 3);
    assert_eq!(m.get("a"), Some(&3));
    assert_eq!(m.get("b"), Some(&2));
    assert!(m.contains_key("b"));
    assert!(!m.contains_key("c"));
    let mut other: TextMap<u32> = TextMap::new();
    other.insert("b".to_string(), 20);
    other.insert("c".to_string(), 30);
    m.extend(other);
    assert_eq!(m.get("a"), Some(&3));
    assert_eq!(m.get("b"), Some(&20));
    assert_eq!(m.get("c"), Some(&30));
}

#[test]
fn emoji_table_pairs_categories_with_groups() {
    let t = emojianki::cards::emoji_table("Smileys\0Animals\0", "😀\0😃\0\0🐶\0\0");
    assert_eq!(
        t,
        vec![
            ("Smileys".to_string(), strings(&["😀", "😃"])),
            ("Animals".to_string(), strings(&["🐶"])),
            ("".to_string(), strings(&[""])),
        ]
    );
    let short = emojianki::cards::emoji_table("Smileys\0", "😀\0\0🐶\0\0");
    assert_eq!(
        short,
        vec![
            ("Smileys".to_string(), strings(&["😀"])),
            ("".to_string(), strings(&["🐶"])),
        ]
    );
}

#[test]
fn notes_use_the_card_model() {
    let m = maker();
    let deck = m
        .generate_set("Deck".to_string(), "smile".as_bytes(), strings(&["Smileys"]))
        .ok()
        .expect("the notes are accepted");
    assert_eq!(deck.num_notes(), 1);
    let model = deck.notes()[0].model();
    assert_eq!(model.id, emojianki::MODEL_ID);
    assert_eq!(model.name, "EmojiAnki Base card");
    let names: Vec<&str> = model.fields.iter().map(|f| f.name.as_str()).collect();
    assert_eq!(names, vec!["Front", "Back"]);
    assert_eq!(model.templates[0].qfmt, "<div class=\"emoji\">{{Front}}</div>");
    assert_eq!(model.css, emojianki::CARD_CSS);
    assert_eq!(model.latex_post, emojianki::anki::DEFAULT_LATEX_POST);
}

#[test]
fn codes_sorted() {
    let v = strings(&["fr_CA", "de", "root", "fr", "de_AT"]);
    assert_eq!(
        emojianki::order::sort_texts(&v),
        strings(&["de", "de_AT", "fr", "fr_CA", "root"])
    );
}
