use seshd::event::{kind, NewEvent};
use seshd::json::Value;
use seshd::text::{is_whitespace, trim};

#[test]
fn new_event_builder_sets_fields() {
    let e = NewEvent::new(kind::APP_LAUNCHED)
        .actor("tate")
        .subject("kodi")
        .payload(Value::Object(vec![("via".to_string(), Value::Str("controller".to_string()))]));

    assert_eq!(e.kind, "app.launched");
    assert_eq!(e.actors, vec!["tate".to_string()]);
    assert_eq!(e.subject.as_deref(), Some("kodi"));
    assert_eq!(e.payload.get("via"), Some(&Value::Str("controller".to_string())));
}

#[test]
fn a_new_event_starts_with_nobody_nothing_and_an_empty_object() {
    let e = NewEvent::new("match.result");
    assert_eq!(e.kind, "match.result");
    assert!(e.actors.is_empty());
    assert_eq!(e.subject, None);
    assert_eq!(e.payload, Value::Object(Vec::new()));
}

#[test]
fn actors_accumulate_in_order() {
    let e = NewEvent::new(kind::MUSIC_VETOED).actor("sam").actor("ali");
    assert_eq!(e.actors, vec!["sam".to_string(), "ali".to_string()]);
}

#[test]
fn reading_a_payload_finds_the_first_member_of_its_name() {
    let payload = Value::Object(vec![
        ("n".to_string(), Value::Int(1)),
        ("n".to_string(), Value::Int(2)),
        ("s".to_string(), Value::Str("x".to_string())),
        ("b".to_string(), Value::Bool(true)),
    ]);
    assert_eq!(payload.get_i64("n"), Some(1));
    assert_eq!(payload.get_str("s"), Some("x".to_string()));
    assert_eq!(payload.get_bool("b"), Some(true));
    assert_eq!(payload.get_i64("s"), None);
    assert_eq!(Value::Null.get("n"), None);
}

#[test]
fn trimming_goes_by_the_unicode_white_space_property() {
    assert_eq!(trim("\u{3000}\t sam \u{85}\u{2028}"), "sam");
    assert_eq!(trim("\u{200B}sam"), "\u{200B}sam");
    for c in ['\t', '\n', '\u{b}', '\u{c}', '\r', ' ', '\u{85}', '\u{a0}', '\u{1680}', '\u{2000}', '\u{200a}', '\u{2028}', '\u{2029}', '\u{202f}', '\u{205f}', '\u{3000}'] {
        assert!(is_whitespace(c), "{:?}", c);
        assert_eq!(is_whitespace(c), c.is_whitespace());
    }
    for c in ['a', '\u{200b}', '\u{180e}', '\u{feff}', '\u{2060}'] {
        assert!(!is_whitespace(c), "{:?}", c);
        assert_eq!(is_whitespace(c), c.is_whitespace());
    }
}
