use libremeet::json::{is_readable, MAX_LENGTH};
use libremeet::metadata::{
    merge_metadata, parse_speaker_names, speakers_metadata, SpeakerNames,
};

fn names(pairs: &[(&str, &str)]) -> SpeakerNames {
    let mut n = SpeakerNames::new();
    for (k, v) in pairs {
        n.insert((*k).into(), (*v).into());
    }
    n
}

fn sorted(n: &SpeakerNames) -> Vec<(String, String)> {
    let mut v = n.to_vec();
    v.sort();
    v
}

fn pairs(p: &[(&str, &str)]) -> Vec<(String, String)> {
    p.iter().map(|(k, v)| (k.to_string(), v.to_string())).collect()
}

fn parsed(s: &str) -> Option<Vec<(String, String)>> {
    parse_speaker_names(&Some(s.to_string())).map(|n| sorted(&n))
}

#[test]
fn names_are_kept_by_speaker() {
    let mut n = SpeakerNames::new();
    assert!(n.is_empty());
    n.insert("SPEAKER_00".into(), "Alice".into());
    n.insert("SPEAKER_01".into(), "Bob".into());
    n.insert("SPEAKER_00".into(), "Carol".into());
    assert!(!n.is_empty());
    assert_eq!(n.get("SPEAKER_00"), Some(&"Carol".to_string()));
    assert_eq!(n.get("SPEAKER_02"), None);
    assert_eq!(sorted(&n), pairs(&[("SPEAKER_00", "Carol"), ("SPEAKER_01", "Bob")]));
}

#[test]
fn speaker_names_are_read_from_metadata() {
    assert_eq!(
        parsed(r#"{"speakers": {"SPEAKER_00": "Alice", "SPEAKER_01": "Bob"}}"#),
        Some(pairs(&[("SPEAKER_00", "Alice"), ("SPEAKER_01", "Bob")]))
    );
    // Names that are no text are passed over.
    assert_eq!(
        parsed(r#"{"other": 1, "speakers": {"a": "A", "b": 2, "c": null, "d": ["x"]}}"#),
        Some(pairs(&[("a", "A")]))
    );
}

#[test]
fn without_names_there_is_nothing() {
    assert!(parse_speaker_names(&None).is_none());
    for s in [
        "",
        "not json",
        "{}",
        "[1]",
        "null",
        r#"{"speakers": null}"#,
        r#"{"speakers": ["A"]}"#,
        r#"{"speakers": {}}"#,
        r#"{"speakers": {"a": 1}}"#,
        r#"{"Speakers": {"a": "A"}}"#,
    ] {
        assert!(parsed(s).is_none(), "{}", s);
    }
}

#[test]
fn the_speakers_are_the_only_member() {
    assert_eq!(
        speakers_metadata(&names(&[("SPEAKER_00", "Al \"ice\"\n")])),
        r#"{"speakers":{"SPEAKER_00":"Al \"ice\"\n"}}"#
    );
    assert_eq!(speakers_metadata(&SpeakerNames::new()), r#"{"speakers":{}}"#);
    assert_eq!(
        speakers_metadata(&names(&[("b", "2"), ("a", "1")])),
        r#"{"speakers":{"a":"1","b":"2"}}"#
    );
}

#[test]
fn without_metadata_the_new_text_is_taken_as_it_is() {
    assert_eq!(merge_metadata(&None, " { \"x\" : 1 } "), " { \"x\" : 1 } ");
    assert_eq!(merge_metadata(&None, "not json"), "not json");
}

#[test]
fn merging_keeps_what_is_not_named() {
    let existing = Some(r#"{"a": 1, "b": [1.5, {"x": null}], "speakers": {"s": "old"}}"#.to_string());
    assert_eq!(
        merge_metadata(&existing, r#"{"speakers": {"t": "new"}, "c": true}"#),
        r#"{"a":1,"b":[1.5,{"x":null}],"c":true,"speakers":{"t":"new"}}"#
    );
    // Merging the same again changes nothing.
    let once = merge_metadata(&existing, r#"{"c": true}"#);
    assert_eq!(merge_metadata(&Some(once.clone()), r#"{"c": true}"#), once);
}

#[test]
fn what_cannot_be_read_counts_as_empty() {
    let new = r#"{"a":1}"#;
    assert_eq!(merge_metadata(&Some("{broken".to_string()), new), new);
    assert_eq!(merge_metadata(&Some(new.to_string()), "{broken"), new);
    assert_eq!(merge_metadata(&Some("{broken".to_string()), "{broken"), "{}");
}

#[test]
fn what_is_no_object_is_left_alone() {
    assert_eq!(merge_metadata(&Some("[ 1 ]".to_string()), r#"{"a":1}"#), "[1]");
    assert_eq!(merge_metadata(&Some("5".to_string()), r#"{"a":1}"#), "5");
    assert_eq!(merge_metadata(&Some(r#"{"a": 1}"#.to_string()), "[2]"), r#"{"a":1}"#);
}

#[test]
fn saved_names_are_read() {
    let saved = names(&[("SPEAKER_00", "Alice"), ("SPEAKER_01", "Zoë")]);
    let text = speakers_metadata(&saved);
    for existing in [
        None,
        Some("{broken".to_string()),
        Some(r#"{"x": 1.0e-7, "speakers": {"SPEAKER_00": "old", "SPEAKER_09": "gone"}}"#.to_string()),
    ] {
        let stored = merge_metadata(&existing, &text);
        assert_eq!(parsed(&stored), Some(sorted(&saved)));
    }
    // What is no object stays, so that there is no name to be read.
    let stored = merge_metadata(&Some("[1]".to_string()), &text);
    assert_eq!(parsed(&stored), None);
}

#[test]
fn whole_numbers_keep_their_notation() {
    let existing = Some(r#"{"n": -12345678901234567, "u": 18446744073709551615}"#.to_string());
    assert_eq!(
        merge_metadata(&existing, "{}"),
        r#"{"n":-12345678901234567,"u":18446744073709551615}"#
    );
}

#[test]
fn deep_documents_are_not_read() {
    let deep = |n: usize| format!("{{\"a\":{}{}}}", "[".repeat(n), "]".repeat(n));
    let new = r#"{"b":1}"#;
    let at_the_limit = deep(126);
    let merged = merge_metadata(&Some(at_the_limit.clone()), new);
    assert_eq!(merged, format!("{},\"b\":1}}", &at_the_limit[..at_the_limit.len() - 1]));
    assert_eq!(merge_metadata(&Some(deep(127)), new), new);
}

#[test]
fn ordinary_texts_can_be_read() {
    assert!(is_readable("{}"));
    assert!(is_readable(""));
    assert_eq!(MAX_LENGTH, i32::MAX as usize);
}

#[test]
fn no_key_is_special() {
    let existing =
        r#"{"$serde_json::private::RawValue":"[1]","x":{"$serde_json::private::Number":"5"}}"#;
    assert_eq!(merge_metadata(&Some(existing.to_string()), "{}"), existing);
    let names = names(&[("$serde_json::private::RawValue", "[[]]")]);
    let text = speakers_metadata(&names);
    assert_eq!(parsed(&text), Some(sorted(&names)));
}
