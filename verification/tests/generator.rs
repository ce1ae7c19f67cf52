use emojianki::available::{language_translations, locales};
use emojianki::build::ldml::{
    has_required_type, parse_ldml, parse_ldml_checked, xml_single_type_optional,
};
use emojianki::build::output::{
    all_categories_names, all_categories_names_checked, all_languages_names, available_languages_file_content, category_key_of,
    ldmls, ldmls_checked, single_locale_translation, CategoryNamesError,
};
use emojianki::build::tables::{
    _locale_format, value_or_parent, value_or_root, ItemOrParent, LocaleTranslation, Part,
};
use emojianki::table::TextMap;
use emojianki::xml::{ParseEvent, XmlError};

const ROOT: &str = r#"<?xml version="1.0" encoding="UTF-8" ?>
<ldml>
	<identity>
		<version number="$Revision$"/>
		<language type="root"/>
	</identity>
	<localeDisplayNames>
		<localeDisplayPattern>
			<localePattern>{0} ({1})</localePattern>
			<localeSeparator>{0}, {1}</localeSeparator>
		</localeDisplayPattern>
	</localeDisplayNames>
</ldml>
"#;

const EN: &str = r#"<?xml version="1.0" encoding="UTF-8" ?>
<ldml>
	<identity>
		<version number="$Revision$"/>
		<language type="en"/>
	</identity>
	<localeDisplayNames>
		<localeDisplayPattern>
			<localePattern>{0} ({1})</localePattern>
			<localeSeparator>{0}, {1}</localeSeparator>
		</localeDisplayPattern>
		<languages>
			<language type="en">English</language>
			<language type="fr">French</language>
			<language type="fr" alt="short">Fr.</language>
		</languages>
		<scripts>
			<script type="Latn">Latin</script>
		</scripts>
		<territories>
			<territory type="CA">Canada</territory>
		</territories>
	</localeDisplayNames>
	<characterLabels>
		<characterLabel type="smileys_people">Smileys &amp; People</characterLabel>
		<characterLabel type="animals_nature">Animals and Nature</characterLabel>
	</characterLabels>
</ldml>
"#;

const FR: &str = r#"<?xml version="1.0" encoding="UTF-8" ?>
<ldml>
	<identity>
		<version number="$Revision$"/>
		<language type="fr"/>
	</identity>
	<localeDisplayNames>
		<localeDisplayPattern>
			<localePattern>↑↑↑</localePattern>
			<localeSeparator>↑↑↑</localeSeparator>
		</localeDisplayPattern>
		<languages>
			<language type="en">anglais</language>
			<language type="fr">français</language>
			<language type="fr_CA">français canadien</language>
		</languages>
	</localeDisplayNames>
	<characterLabels>
		<characterLabel type="smileys_people">Smileys et personnages</characterLabel>
		<characterLabel type="animals_nature">Animaux et nature</characterLabel>
	</characterLabels>
</ldml>
"#;

const FR_CA: &str = r#"<?xml version="1.0" encoding="UTF-8" ?>
<ldml>
	<identity>
		<version number="$Revision$"/>
		<language type="fr"/>
		<territory type="CA"/>
	</identity>
	<localeDisplayNames>
		<languages>
			<language type="en">↑↑↑</language>
		</languages>
	</localeDisplayNames>
</ldml>
"#;

fn strings(v: &[&str]) -> Vec<String> {
    v.iter().map(|s| s.to_string()).collect()
}

fn all_ldmls() -> TextMap<emojianki::build::ldml::Ldml> {
    ldmls(
        &strings(&["en", "fr", "fr_CA", "root"]),
        &strings(&[EN, FR, FR_CA, ROOT]),
    )
}

#[test]
fn parse_ldml_reads_identity_and_names() {
    let l = parse_ldml(FR_CA);
    assert_eq!(l.identity.language, "fr");
    assert_eq!(l.identity.territory.as_deref(), Some("CA"));
    assert!(l.identity.script.is_none());
    assert_eq!(l.languages.get("en").map(String::as_str), Some("↑↑↑"));
    let en = parse_ldml(EN);
    // the alternative name is passed over
    assert_eq!(en.languages.get("fr").map(String::as_str), Some("French"));
    assert_eq!(en.territories.get("CA").map(String::as_str), Some("Canada"));
    assert_eq!(en.scripts.get("Latn").map(String::as_str), Some("Latin"));
    let root = parse_ldml(ROOT);
    assert_eq!(root.locale_pattern, "{0} ({1})");
    assert_eq!(root.locale_separator, "{0}, {1}");
}

#[test]
fn parse_ldml_without_language_is_refused() {
    let doc = "<ldml><identity><version number=\"1\"/></identity></ldml>";
    assert!(matches!(parse_ldml_checked(doc), Err(XmlError::EmptyLanguage)));
}

#[test]
fn parse_ldml_language_needs_type() {
    let doc = "<ldml><identity><language/></identity></ldml>";
    assert!(matches!(parse_ldml_checked(doc), Err(XmlError::MissingAttribute)));
}

#[test]
fn ldmls_reports_the_first_unparsable_file() {
    let r = ldmls_checked(&strings(&["en", "xx"]), &strings(&[EN, "<ldml></oops>"]));
    assert!(matches!(r, Err(XmlError::Syntax)));
}

#[test]
fn value_lookups() {
    let m = all_ldmls();
    match value_or_parent(&m, "en", &Part::Language("fr".to_string())) {
        ItemOrParent::Item(t) => assert_eq!(t, "French"),
        _ => panic!("expected the locale's own name"),
    }
    match value_or_parent(&m, "fr_CA", &Part::Language("en".to_string())) {
        ItemOrParent::Parent(t) => assert_eq!(t, "anglais"),
        _ => panic!("expected the parent's name"),
    }
    assert!(matches!(
        value_or_parent(&m, "fr", &Part::Territory("CA".to_string())),
        ItemOrParent::Absent
    ));
    assert_eq!(value_or_root(&m, "en", &Part::LocalePattern), "{0} ({1})");
    // fr defers to its parent, which is itself: the root's value
    assert_eq!(value_or_root(&m, "fr", &Part::LocaleSeparator), "{0}, {1}");
    // a file without the element says nothing: fr_CA, then fr (which
    // defers), then the root
    assert_eq!(value_or_root(&m, "fr_CA", &Part::LocaleSeparator), "{0}, {1}");
}

#[test]
fn update_is_item_marks_own_values() {
    let mut own = false;
    assert_eq!(ItemOrParent::Parent(3).update_is_item(&mut own), Some(3));
    assert!(!own);
    assert_eq!(ItemOrParent::<i32>::Absent.update_is_item(&mut own), None);
    assert!(!own);
    assert_eq!(ItemOrParent::Item(4).update_is_item(&mut own), Some(4));
    assert!(own);
}

#[test]
fn into_string_marks() {
    assert_eq!(LocaleTranslation::Unnamed.into_string(), "\u{18}");
    assert_eq!(LocaleTranslation::Parent.into_string(), "\u{1a}");
    assert_eq!(LocaleTranslation::Named("x".to_string()).into_string(), "x");
}

#[test]
fn locale_format_composes_names() {
    let m = all_ldmls();
    match _locale_format("en", "fr_CA", &m) {
        LocaleTranslation::Named(t) => assert_eq!(t, "French (Canada)"),
        _ => panic!("expected a composed name"),
    }
    // no `_`: nothing to compose
    assert!(matches!(_locale_format("en", "fr", &m), LocaleTranslation::Unnamed));
    // every part from the parent's file
    assert!(matches!(_locale_format("fr_CA", "fr_CA", &m), LocaleTranslation::Unnamed));
    // the root has no language names
    assert!(matches!(_locale_format("root", "fr_CA", &m), LocaleTranslation::Unnamed));
}

#[test]
fn single_translations() {
    let m = all_ldmls();
    assert_eq!(single_locale_translation(&m, "en", "fr", "root"), "French");
    assert_eq!(single_locale_translation(&m, "en", "fr_CA", "root"), "French (Canada)");
    assert_eq!(single_locale_translation(&m, "fr_CA", "en", "fr"), "\u{1a}");
    assert_eq!(single_locale_translation(&m, "fr_CA", "fr_CA", "fr"), "\u{1a}");
    assert_eq!(single_locale_translation(&m, "root", "en", "root"), "\u{18}");
}

#[test]
fn names_table_and_file() {
    let m = all_ldmls();
    let langs = strings(&["en", "fr", "fr_CA"]);
    let table = all_languages_names(&langs, &m);
    assert_eq!(
        table,
        "English\0French\0French (Canada)\0\0anglais\0français\0français canadien\0\0\u{1a}\0\u{1a}\0\u{1a}\0\0"
    );
    let file = available_languages_file_content(&langs, &m);
    assert_eq!(
        file,
        format!(
            "pub(crate) static AVAILABLE: &str = \"en\0fr\0fr_CA\0\";\npub(crate) static TRANSLATIONS: &str = \"{table}\";\n"
        )
    );
}

#[test]
fn file_lists_languages_without_root() {
    let m = all_ldmls();
    let file = available_languages_file_content(&strings(&["en", "root"]), &m);
    assert!(file.starts_with("pub(crate) static AVAILABLE: &str = \"en\0\";\n"));
}

#[test]
fn generated_tables_read_back() {
    let m = all_ldmls();
    let langs = strings(&["en", "fr", "fr_CA"]);
    let available = "en\0fr\0fr_CA\0";
    let table = all_languages_names(&langs, &m);
    assert_eq!(locales(available), strings(&["en", "fr", "fr_CA", ""]));
    let own = language_translations("en", available, &table).expect("listed");
    assert_eq!(
        own,
        vec![
            ("en".to_string(), "English".to_string()),
            ("fr".to_string(), "French".to_string()),
            ("fr_CA".to_string(), "French (Canada)".to_string()),
        ]
    );
    // every entry of fr_CA defers to fr
    let inherited = language_translations("fr_CA", available, &table).expect("listed");
    assert_eq!(
        inherited,
        vec![
            ("en".to_string(), "anglais".to_string()),
            ("fr".to_string(), "français".to_string()),
            ("fr_CA".to_string(), "français canadien".to_string()),
        ]
    );
}

#[test]
fn category_keys() {
    assert_eq!(category_key_of("Smileys & People"), "smileys_people");
    assert_eq!(category_key_of("Animals & Nature"), "animals_nature");
    assert_eq!(category_key_of("Flags"), "flags");
}

#[test]
fn category_names_table() {
    let langs = strings(&["en", "fr"]);
    let docs = strings(&[EN, FR]);
    let cats = strings(&["Smileys & People", "Animals & Nature"]);
    let t = all_categories_names(&langs, &docs, &cats);
    assert_eq!(all_categories_names_checked(&langs, &docs, &cats).ok(), Some(t.clone()));
    // the text of a label stops at its first entity reference
    assert_eq!(
        t,
        "Smileys\0Animals and Nature\0\0Smileys et personnages\0Animaux et nature\0\0"
    );
}

#[test]
fn category_names_missing_label() {
    let langs = strings(&["en", "fr"]);
    let docs = strings(&[EN, FR]);
    let cats = strings(&["Smileys & People", "Flags"]);
    match all_categories_names_checked(&langs, &docs, &cats) {
        Err(CategoryNamesError::MissingLabel { label, lang }) => {
            assert_eq!(label, "Flags");
            assert_eq!(lang, "en");
        }
        _ => panic!("expected a missing label"),
    }
}

#[test]
fn category_names_unparsable_file() {
    let r = all_categories_names_checked(
        &strings(&["en"]),
        &strings(&["<ldml><a></b></ldml>"]),
        &strings(&["Flags"]),
    );
    assert!(matches!(r, Err(CategoryNamesError::Xml(_))));
}

#[test]
fn generated_category_names_read_back() {
    let langs = strings(&["en", "fr"]);
    let cats = strings(&["Smileys & People", "Animals & Nature"]);
    let table = all_categories_names(&langs, &strings(&[EN, FR]), &cats);
    let read = emojianki::available::categories(
        "fr",
        "en\0fr\0",
        "Smileys & People\0Animals & Nature\0",
        &table,
    )
    .expect("listed");
    assert_eq!(
        read,
        vec![
            ("Smileys & People".to_string(), "Smileys et personnages".to_string()),
            ("Animals & Nature".to_string(), "Animaux et nature".to_string()),
        ]
    );
}

const FR_BE: &str = r#"<ldml>
	<identity>
		<language type="fr"/>
		<territory type="BE"/>
	</identity>
	<localeDisplayNames>
		<territories>
			<territory type="BE">Belgique</territory>
		</territories>
	</localeDisplayNames>
</ldml>
"#;

#[test]
fn missing_pattern_falls_back_to_root() {
    // fr_BE has its own territory name and no locale pattern: the pattern
    // comes from the root, never the empty text
    let m = ldmls(
        &strings(&["fr", "fr_BE", "root"]),
        &strings(&[FR, FR_BE, ROOT]),
    );
    match _locale_format("fr_BE", "fr_BE", &m) {
        LocaleTranslation::Named(t) => assert_eq!(t, "français (Belgique)"),
        _ => panic!("expected a composed name"),
    }
    assert_eq!(
        single_locale_translation(&m, "fr_BE", "fr_BE", "fr"),
        "français (Belgique)"
    );
}

#[test]
fn first_missing_label_in_row_order() {
    let langs = strings(&["en", "fr"]);
    let fr_without = FR.replace(
        "<characterLabel type=\"animals_nature\">Animaux et nature</characterLabel>",
        "",
    );
    let docs = vec![EN.to_string(), fr_without];
    let cats = strings(&["Smileys & People", "Animals & Nature"]);
    match all_categories_names_checked(&langs, &docs, &cats) {
        Err(CategoryNamesError::MissingLabel { label, lang }) => {
            assert_eq!(label, "Animals & Nature");
            assert_eq!(lang, "fr");
        }
        _ => panic!("expected a missing label"),
    }
}

#[test]
fn empty_names_are_names() {
    let mut en = parse_ldml(EN);
    en.languages.insert("de".to_string(), String::new());
    let mut fr = parse_ldml(FR);
    fr.languages.insert("it".to_string(), String::new());
    let mut m = TextMap::new();
    m.insert("en".to_string(), en);
    m.insert("fr".to_string(), fr);
    m.insert("fr_CA".to_string(), parse_ldml(FR_CA));
    m.insert("root".to_string(), parse_ldml(ROOT));
    match value_or_parent(&m, "en", &Part::Language("de".to_string())) {
        ItemOrParent::Item(t) => assert_eq!(t, ""),
        _ => panic!("expected the locale's own, empty, name"),
    }
    match value_or_parent(&m, "fr_CA", &Part::Language("it".to_string())) {
        ItemOrParent::Parent(t) => assert_eq!(t, ""),
        _ => panic!("expected the parent's, empty, name"),
    }
    assert_eq!(value_or_root(&m, "en", &Part::Language("de".to_string())), "");
    assert_eq!(single_locale_translation(&m, "en", "de", "root"), "");
}

#[test]
fn optional_identity_part_takes_the_type() {
    let mut attrs = TextMap::new();
    attrs.insert("type".to_string(), "CA".to_string());
    let start = ParseEvent::Start(attrs);
    assert!(has_required_type(&start));
    let mut t = None;
    xml_single_type_optional(&mut t, &start);
    assert_eq!(t.as_deref(), Some("CA"));
    let text = ParseEvent::Text("x".to_string());
    assert!(has_required_type(&text));
    xml_single_type_optional(&mut t, &text);
    assert_eq!(t.as_deref(), Some("CA"));
    assert!(!has_required_type(&ParseEvent::Start(TextMap::new())));
}
