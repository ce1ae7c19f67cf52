use emojianki::annotations::parse_annotations;
use emojianki::statuses::{statuses, Status};

const FR_ANNOTATIONS: &str = r#"<?xml version="1.0" encoding="UTF-8" ?>
<!DOCTYPE ldml SYSTEM "../../common/dtd/ldml.dtd">
<ldml>
	<identity>
		<version number="$Revision$"/>
		<language type="fr"/>
	</identity>
	<annotations>
		<annotation cp="😀">content | grand sourire | rire | souriant | visage | visage rieur</annotation>
		<annotation cp="😀" type="tts">visage rieur</annotation>
		<annotation cp="🐱">chat | tête | tête de chat</annotation>
		<annotation cp="🐱" type="tts">tête de chat</annotation>
	</annotations>
</ldml>
"#;

const EMOJI_TEST: &str = "# emoji-test.txt
# Date: 2024-08-14

# group: Smileys & Emotion
1F600                                                  ; fully-qualified     # 😀 E1.0 grinning face
263A FE0F                                              ; fully-qualified     # ☺️ E0.6 smiling face
263A                                                   ; unqualified         # ☺ E0.6 smiling face
1F636 200D 1F32B FE0F                                  ; fully-qualified     # 😶‍🌫️ E13.1 face in clouds
1F636 200D 1F32B                                       ; minimally-qualified # 😶‍🌫 E13.1 face in clouds
1F3FB                                                  ; component           # 🏻 E1.0 light skin tone
";

#[test]
fn annotations_test_annotations() {
    let annots = parse_annotations(FR_ANNOTATIONS);
    let grin = annots.get("😀").expect("😀 is annotated");
    assert_eq!(grin.tts, "visage rieur");
    assert_eq!(
        grin.notes,
        vec!["content", "grand sourire", "rire", "souriant", "visage", "visage rieur"]
    );
    let cat = annots.get("🐱").expect("🐱 is annotated");
    assert_eq!(cat.tts, "tête de chat");
    assert_eq!(cat.notes, vec!["chat", "tête", "tête de chat"]);
    assert!(annots.get("🐶").is_none());
    // the generator keeps the spoken names only
    let tts = emojianki::build::annotations::parse_annotations(FR_ANNOTATIONS);
    assert_eq!(tts.get("😀").map(String::as_str), Some("visage rieur"));
    assert_eq!(tts.get("🐱").map(String::as_str), Some("tête de chat"));
}

#[test]
fn test_qualifications() {
    let st = statuses(EMOJI_TEST);
    assert_eq!(st.get("😀"), Some(&Status::FullyQualified));
    assert_eq!(st.get("\u{263A}\u{FE0F}"), Some(&Status::FullyQualified));
    assert_eq!(st.get("\u{263A}"), Some(&Status::Unqualified));
    assert_eq!(
        st.get("\u{1F636}\u{200D}\u{1F32B}"),
        Some(&Status::MinimallyQualified)
    );
    assert_eq!(st.get("\u{1F3FB}"), Some(&Status::Component));
    assert!(st.get("1F600").is_none());
}

const LABELS_TXT: &str = "# Emoji labels
[😀😃]\tSmileys & People
[⚽]\tActivities
[{🇫🇷}]\tFlags
";

#[test]
fn test_labels() {
    assert!(emojianki::labels::labels_ok(LABELS_TXT));
    let labels = emojianki::labels::get_labels(LABELS_TXT);
    assert_eq!(
        labels.categories.get("Smileys & People"),
        Some(&vec!["😀".to_string(), "😃".to_string()])
    );
    assert_eq!(labels.emojis.get("🇫🇷").map(String::as_str), Some("Flags"));
}

#[test]
fn test_fr_gen() {
    let categories = [
        "Activities",
        "Smileys & People",
        "Objects",
        "Flags",
        "Symbols",
        "Travel & Places",
    ];
    let ea = emojianki::EmojiAnki::new(
        "fr\0".to_string(),
        "français\0\0".to_string(),
        "Smileys & People\0Activities\0Flags\0".to_string(),
        "Smileys et personnages\0Activités\0Drapeaux\0\0".to_string(),
        vec![
            ("Smileys & People".to_string(), vec!["😀".to_string(), "😃".to_string()]),
            ("Activities".to_string(), vec!["⚽".to_string()]),
            ("Flags".to_string(), vec!["🇫🇷".to_string()]),
        ],
    );
    let annotations = "visage rieur\0visage souriant avec de grands yeux\0\0ballon de football\0\0drapeau : France";
    let deck = ea
        .generate_set(
            "Test name".to_string(),
            annotations.as_bytes(),
            categories.into_iter().map(str::to_string).collect(),
        )
        .ok()
        .expect("the deck is made");
    assert_eq!(deck.num_notes(), 4);
    assert_eq!(deck.name, "Test name");
}
