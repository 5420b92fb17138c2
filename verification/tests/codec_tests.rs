use argo_notes::codec::{encode_index, encode_note, parse_index, parse_note};
use argo_notes::note::Note;

fn sample(id: &str, content: &str, created: i64, updated: i64) -> Note {
    Note {
        id: String::from(id),
        title: String::from("whatever"),
        content: String::from(content),
        created_at: created,
        updated_at: updated,
    }
}

#[test]
fn note_record_round_trips() {
    let note = sample("abc-123", "# Title\nline \"quoted\" back\\slash\ttab\r\n", 17, 42);
    let text = encode_note(&note);
    let back = parse_note(&text).expect("own record must parse");
    assert_eq!(back, note);
}

#[test]
fn note_record_round_trips_unicode_and_negative_stamps() {
    let note = sample("id-é", "célébration \u{2026} \u{1F600}\nmore", -5, i64::MIN);
    let back = parse_note(&encode_note(&note)).expect("own record must parse");
    assert_eq!(back, note);
}

#[test]
fn note_record_round_trips_extreme_stamps() {
    let note = sample("x", "", i64::MIN, i64::MAX);
    let back = parse_note(&encode_note(&note)).expect("own record must parse");
    assert_eq!(back, note);
}

#[test]
fn note_record_has_the_documented_shape() {
    let note = sample("n1", "body", 1, 2);
    let mut expected = String::new();
    expected.push_str("{\n  \"id\": \"n1\"");
    expected.push_str(",\n  \"title\": \"whatever\"");
    expected.push_str(",\n  \"content\": \"body\"");
    expected.push_str(",\n  \"created_at\": 1");
    expected.push_str(",\n  \"updated_at\": 2\n}");
    assert_eq!(encode_note(&note), expected);
}

#[test]
fn corrupt_records_read_as_nothing() {
    assert!(parse_note("").is_none());
    assert!(parse_note("{}").is_none());
    assert!(parse_note("not a record at all").is_none());
    let good = encode_note(&sample("a", "b", 0, 0));
    let truncated = &good[..good.len() - 2];
    assert!(parse_note(truncated).is_none());
    let padded = format!("{} ", good);
    assert!(parse_note(&padded).is_none());
}

#[test]
fn record_with_unescaped_control_noise_reads_as_nothing() {
    // a lone backslash before the closing quote breaks the escape grammar
    assert!(parse_note("{\n  \"id\": \"a\\").is_none());
}

#[test]
fn index_round_trips() {
    let ids: Vec<String> = vec![
        String::from("one"),
        String::from("two-2"),
        String::from("with \"quote\" and \\slash\n"),
    ];
    let text = encode_index(&ids);
    let back = parse_index(&text).expect("own index must parse");
    assert_eq!(back, ids);
}

#[test]
fn empty_index_round_trips() {
    let ids: Vec<String> = Vec::new();
    let text = encode_index(&ids);
    assert_eq!(text, "[]");
    let back = parse_index(&text).expect("own index must parse");
    assert!(back.is_empty());
}

#[test]
fn corrupt_index_reads_as_nothing() {
    assert!(parse_index("").is_none());
    assert!(parse_index("[").is_none());
    assert!(parse_index("[\"a\"").is_none());
    assert!(parse_index("[\"a\",]").is_none());
    assert!(parse_index("[\"a\"]x").is_none());
    assert!(parse_index("nonsense").is_none());
}
