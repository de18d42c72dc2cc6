use memory_strategy::preference::{MemoryPreference, PreferenceFields};
use serde_json::Value;

fn object(members: Vec<(&str, Value)>) -> Value {
    let mut map = serde_json::Map::new();
    for (key, value) in members {
        map.insert(key.to_owned(), value);
    }
    Value::Object(map)
}

fn text(value: &str) -> Value {
    Value::String(value.to_owned())
}

#[test]
fn memory_preference_parses_env_tokens_and_request_fields() {
    assert_eq!(MemoryPreference::from_token("1"), MemoryPreference::PreferOffload);
    assert_eq!(MemoryPreference::from_token("Offload"), MemoryPreference::PreferOffload);
    assert_eq!(MemoryPreference::from_token("MAX"), MemoryPreference::MaxOffload);
    assert_eq!(MemoryPreference::from_token("aggressive"), MemoryPreference::MaxOffload);
    assert_eq!(MemoryPreference::from_token("resident"), MemoryPreference::Default);
    assert_eq!(MemoryPreference::from_token("0"), MemoryPreference::Default);

    assert_eq!(MemoryPreference::from_request(&object(vec![])), None);
    assert_eq!(
        MemoryPreference::from_request(&object(vec![("memoryPreference", text("max"))])),
        Some(MemoryPreference::MaxOffload)
    );
    assert_eq!(
        MemoryPreference::from_request(&object(vec![(
            "advanced",
            object(vec![("memoryPreference", text("offload"))])
        )])),
        Some(MemoryPreference::PreferOffload)
    );
    assert_eq!(
        MemoryPreference::from_request(&object(vec![("lowVram", Value::Bool(true))])),
        Some(MemoryPreference::PreferOffload)
    );
    assert_eq!(
        MemoryPreference::from_request(&object(vec![(
            "advanced",
            object(vec![("lowVram", Value::Bool(false))])
        )])),
        Some(MemoryPreference::Default)
    );
}

#[test]
fn every_token_has_its_preference() {
    for token in ["1", "true", "yes", "on", "offload", "staged", "sequential", "Staged", "TRUE"] {
        assert_eq!(MemoryPreference::from_token(token), MemoryPreference::PreferOffload);
    }
    for token in ["2", "max", "aggressive", "deep", "bounded", "DEEP"] {
        assert_eq!(MemoryPreference::from_token(token), MemoryPreference::MaxOffload);
    }
    for token in ["", " 1", "off", "\u{212a}", "none"] {
        assert_eq!(MemoryPreference::from_token(token), MemoryPreference::Default);
    }
}

#[test]
fn the_setting_is_trimmed_and_case_insensitive() {
    assert_eq!(MemoryPreference::from_env(None), MemoryPreference::Default);
    assert_eq!(MemoryPreference::from_env(Some("")), MemoryPreference::Default);
    assert_eq!(MemoryPreference::from_env(Some(" \u{3000}YES\t\n")), MemoryPreference::PreferOffload);
    assert_eq!(MemoryPreference::from_env(Some("\u{a0}Deep ")), MemoryPreference::MaxOffload);
    assert_eq!(MemoryPreference::from_env(Some("y es")), MemoryPreference::Default);
    assert_eq!(MemoryPreference::from_env(Some("staged")), MemoryPreference::Default);
    assert_eq!(MemoryPreference::default(), MemoryPreference::Default);
}

#[test]
fn a_present_member_of_another_kind_hides_the_advanced_one() {
    let request = object(vec![
        ("memoryPreference", Value::Bool(true)),
        ("lowVram", text("true")),
        (
            "advanced",
            object(vec![("memoryPreference", text("max")), ("lowVram", Value::Bool(true))]),
        ),
    ]);
    assert_eq!(MemoryPreference::from_request(&request), None);
    let request = object(vec![
        ("memoryPreference", Value::Null),
        ("advanced", object(vec![("lowVram", Value::Bool(true))])),
    ]);
    assert_eq!(MemoryPreference::from_request(&request), Some(MemoryPreference::PreferOffload));
    assert_eq!(MemoryPreference::from_request(&text("max")), None);
    let request = object(vec![("advanced", text("max")), ("memoryPreference", text(" max "))]);
    assert_eq!(MemoryPreference::from_request(&request), Some(MemoryPreference::MaxOffload));
}

#[test]
fn text_comes_before_flags_and_the_request_before_its_advanced_part() {
    let fields = PreferenceFields {
        memory_preference: None,
        advanced_memory_preference: Some(Some(" Max\n")),
        low_vram: Some(Some(false)),
        advanced_low_vram: Some(Some(true)),
    };
    assert_eq!(MemoryPreference::from_fields(fields), Some(MemoryPreference::MaxOffload));
    let fields = PreferenceFields { memory_preference: Some(Some("offload")), ..fields };
    assert_eq!(MemoryPreference::from_fields(fields), Some(MemoryPreference::PreferOffload));
    let fields = PreferenceFields { memory_preference: Some(None), ..fields };
    assert_eq!(MemoryPreference::from_fields(fields), Some(MemoryPreference::Default));
    let fields = PreferenceFields { low_vram: None, ..fields };
    assert_eq!(MemoryPreference::from_fields(fields), Some(MemoryPreference::PreferOffload));
}

#[test]
fn preferences_defer_and_deepen() {
    assert!(!MemoryPreference::Default.defers_resident());
    assert!(MemoryPreference::PreferOffload.defers_resident());
    assert!(MemoryPreference::MaxOffload.defers_resident());
    assert!(!MemoryPreference::PreferOffload.prefers_deepest());
    assert!(MemoryPreference::MaxOffload.prefers_deepest());
}
