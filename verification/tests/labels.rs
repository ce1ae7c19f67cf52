use emojianki::build::categories::get_categories as categories_of_list;
use emojianki::build::labels::{
    all_emojis_qualified, all_emojis_qualified_checked, check_qualified, get_categories,
    get_categories_checked, parse_labels, parse_labels_checked, qualified, QualifyError,
};
use emojianki::labels::{get_labels, get_labels_checked, labels_ok, LabelsError};
use emojianki::statuses::{parse_hex, statuses, statuses_ok, Status};

const LABELS: &str = "# labels
[😀😃]\tSmileys & People
[🐶];Animals & Nature

[☺];Smileys & People
[{🇫🇷}{🏳️‍🌈}]\t;Flags
";

const STATUSES: &str = "# emoji-test
1F600 ; fully-qualified # 😀
1F603 ; fully-qualified # 😃
1F436 ; fully-qualified # 🐶
263A FE0F ; fully-qualified # ☺️
263A ; unqualified # ☺
1F1EB 1F1F7 ; fully-qualified # 🇫🇷
1F3F3 FE0F 200D 1F308 ; fully-qualified # 🏳️‍🌈
";

fn strings(v: &[&str]) -> Vec<String> {
    v.iter().map(|s| s.to_string()).collect()
}

fn pair(a: &str, b: &str) -> (String, String) {
    (a.to_string(), b.to_string())
}

#[test]
fn label_pairs_in_listed_order() {
    assert!(labels_ok(LABELS));
    let p = parse_labels(LABELS);
    assert_eq!(parse_labels_checked(LABELS), Ok(p.clone()));
    assert_eq!(
        p,
        vec![
            pair("Smileys & People", "😀"),
            pair("Smileys & People", "😃"),
            pair("Animals & Nature", "🐶"),
            pair("Smileys & People", "☺"),
            pair("Flags", "🇫🇷"),
            pair("Flags", "🏳️‍🌈"),
        ]
    );
}

#[test]
fn fields_are_not_trimmed() {
    let p = parse_labels("[🐶] ; Animals\n");
    assert_eq!(p, vec![pair(" Animals", "🐶")]);
}

#[test]
fn categories_once_each() {
    assert_eq!(
        get_categories(LABELS),
        strings(&["Smileys & People", "Animals & Nature", "Flags"])
    );
    assert_eq!(
        categories_of_list(LABELS),
        strings(&["Smileys & People", "Animals & Nature", "Flags"])
    );
}

#[test]
fn unparsable_set() {
    let bad = "[😀; Smileys\n";
    assert!(labels_ok(bad));
    assert_eq!(parse_labels_checked(bad), Err(LabelsError::UnparsableSet));
    assert_eq!(get_categories_checked(bad), Err(LabelsError::UnparsableSet));
    assert!(get_labels_checked(bad).is_err());
}

#[test]
fn malformed_list_is_detected() {
    assert!(!labels_ok("[😀]\n"));
    assert!(labels_ok("# only a comment\n\n"));
}

#[test]
fn labels_by_category_and_emoji() {
    let l = get_labels(LABELS);
    assert_eq!(
        l.categories.get("Smileys & People"),
        Some(&strings(&["😀", "😃", "☺"]))
    );
    assert_eq!(l.emojis.get("🐶").map(String::as_str), Some("Animals & Nature"));
    assert!(l.emojis.get("🐱").is_none());
}

#[test]
fn hex_code_points() {
    assert_eq!(parse_hex(&"1F600".chars().collect()), Some(0x1F600));
    assert_eq!(parse_hex(&"fe0f".chars().collect()), Some(0xFE0F));
    assert_eq!(parse_hex(&"+1A".chars().collect()), Some(0x1A));
    assert_eq!(parse_hex(&"".chars().collect()), None);
    assert_eq!(parse_hex(&"1G".chars().collect()), None);
}

#[test]
fn status_list() {
    assert!(statuses_ok(STATUSES));
    assert!(!statuses_ok("1F600 ; mostly-qualified\n"));
    assert!(!statuses_ok("ZZZ ; fully-qualified\n"));
    let st = statuses(STATUSES);
    assert_eq!(st.get("☺"), Some(&Status::Unqualified));
    assert_eq!(st.get("☺\u{FE0F}"), Some(&Status::FullyQualified));
}

#[test]
fn qualified_forms() {
    let mut st = statuses(STATUSES);
    assert_eq!(qualified(&st, "😀"), Some("😀".to_string()));
    assert_eq!(qualified(&st, "☺"), Some("☺\u{FE0F}".to_string()));
    assert_eq!(qualified(&st, "🐱"), None);
    st.insert("\u{1F636}\u{200D}\u{1F32B}".to_string(), Status::MinimallyQualified);
    st.insert("\u{1F636}\u{200D}\u{1F32B}\u{FE0F}".to_string(), Status::FullyQualified);
    st.insert("\u{1F3FB}".to_string(), Status::Component);
    assert_eq!(
        qualified(&st, "\u{1F636}\u{200D}\u{1F32B}"),
        Some("\u{1F636}\u{200D}\u{1F32B}\u{FE0F}".to_string())
    );
    assert_eq!(qualified(&st, "\u{1F3FB}"), None);
    assert!(check_qualified(&st, "☺"));
    st.insert("\u{2764}".to_string(), Status::Unqualified);
    assert!(!check_qualified(&st, "\u{2764}"));
}

#[test]
fn emoji_list_in_groups() {
    let st = statuses(STATUSES);
    let text = all_emojis_qualified(LABELS, &st);
    assert_eq!(all_emojis_qualified_checked(LABELS, &st), Ok(text.clone()));
    assert_eq!(
        text,
        "😀\0😃\0\0🐶\0\0☺\u{FE0F}\0\0🇫🇷\0🏳️‍🌈\0\0"
    );
    let empty = statuses("");
    assert_eq!(
        all_emojis_qualified("[😀]; Smileys\n", &empty),
        "\0"
    );
}

#[test]
fn emoji_list_errors() {
    let mut st = statuses(STATUSES);
    st.insert("\u{2764}".to_string(), Status::Unqualified);
    assert_eq!(
        all_emojis_qualified_checked("[\u{2764}]; Hearts\n", &st),
        Err(QualifyError::NotFullyQualified)
    );
    assert_eq!(
        all_emojis_qualified_checked("[😀; Smileys\n", &st),
        Err(QualifyError::UnparsableSet)
    );
}

#[test]
fn label_maps_agree() {
    // 😀 is listed again in a later line: its category is the last one, and
    // both categories list it
    let l = get_labels("[😀];A\n[😀😃];B\n");
    assert_eq!(l.emojis.get("😀").map(String::as_str), Some("B"));
    assert_eq!(l.categories.get("A"), Some(&strings(&["😀"])));
    assert_eq!(l.categories.get("B"), Some(&strings(&["😀", "😃"])));
}
