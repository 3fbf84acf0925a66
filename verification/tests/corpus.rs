use comic_ocr::corpus::{
    check_records, corpus_file_kind, corpus_report, intentional_negatives, is_blank_line,
    label_from_record, labels_of_file, record_lines, text_lines, CorpusError, CorpusReport,
    FileKind, Label, LineFailure, RecordError, VocabReport,
};
use comic_ocr::json::JsonValue;

fn s(text: &str) -> JsonValue {
    JsonValue::Str(text.to_string())
}

fn obj(members: Vec<(&str, JsonValue)>) -> JsonValue {
    JsonValue::Object(members.into_iter().map(|(k, v)| (k.to_string(), v)).collect())
}

fn pair(text: &str, state: &str) -> JsonValue {
    obj(vec![
        ("confidence", JsonValue::Number("1.0".to_string())),
        ("crop", s("crops/x.png")),
        ("direction", s("ttb")),
        ("language", s("ja")),
        ("provenance", obj(vec![("state", s(state))])),
        ("source", s("own-corpus")),
        ("text", s(text)),
    ])
}

fn label(text: &str, negative: bool) -> Label {
    Label { text: text.to_string(), intentional_negative: negative }
}

fn vocab(admitted: usize) -> VocabReport {
    VocabReport {
        distinct_characters: 7,
        admitted,
        dropped_rare: 7 - admitted,
        characters_scanned: 10,
        empty_lines: 1,
    }
}

#[test]
fn a_verified_pair_yields_its_text() {
    let l = label_from_record(&pair("こんにちは", "verified")).expect("label");
    assert_eq!(l.text, "こんにちは");
    assert!(!l.intentional_negative);
}

#[test]
fn a_rejected_pair_is_refused() {
    assert!(matches!(
        label_from_record(&pair("わるい", "rejected")),
        Err(RecordError::Rejected)
    ));
}

#[test]
fn a_record_without_string_text_is_refused() {
    let no_text = obj(vec![("provenance", obj(vec![("state", s("verified"))]))]);
    assert!(matches!(label_from_record(&no_text), Err(RecordError::MissingText)));
    let numeric = obj(vec![("text", JsonValue::Number("3".to_string()))]);
    assert!(matches!(label_from_record(&numeric), Err(RecordError::MissingText)));
    assert!(matches!(label_from_record(&s("text")), Err(RecordError::MissingText)));
}

#[test]
fn a_state_that_is_not_a_string_does_not_reject() {
    let odd = obj(vec![
        ("provenance", obj(vec![("state", JsonValue::Bool(true))])),
        ("text", s("よい")),
    ]);
    assert_eq!(label_from_record(&odd).unwrap().text, "よい");
    let flat = obj(vec![("provenance", s("rejected")), ("text", s("よい"))]);
    assert_eq!(label_from_record(&flat).unwrap().text, "よい");
}

#[test]
fn intentional_negative_flag_must_be_a_true_boolean() {
    let negative = obj(vec![
        ("empty_is_intentional", JsonValue::Bool(true)),
        ("text", s("")),
    ]);
    let l = label_from_record(&negative).unwrap();
    assert!(l.intentional_negative);
    assert_eq!(l.text, "");
    let stringly = obj(vec![("empty_is_intentional", s("true")), ("text", s(""))]);
    assert!(!label_from_record(&stringly).unwrap().intentional_negative);
}

#[test]
fn lines_split_like_str_lines() {
    let cases = ["a\r\nb\n\nc", "x\r", "tail\n", "", "\n", "one", "a\n\r\n b \r\n"];
    for case in cases {
        let expected: Vec<String> = case.lines().map(|l| l.to_string()).collect();
        assert_eq!(text_lines(case), expected, "lines of {case:?}");
    }
}

#[test]
fn record_lines_skip_blanks_and_count_every_line() {
    let text = "{\"a\":1}\n   \n\t\n{\"b\":2}\r\n\n";
    assert_eq!(
        record_lines(text),
        vec![(1, "{\"a\":1}".to_string()), (4, "{\"b\":2}".to_string())]
    );
    assert!(record_lines("\n \n").is_empty());
}

#[test]
fn blank_lines_hold_only_whitespace() {
    assert!(is_blank_line(&" \t\u{3000}".to_string()));
    assert!(is_blank_line(&String::new()));
    assert!(!is_blank_line(&" x ".to_string()));
}

fn pair_line(text: &str, state: &str) -> String {
    format!(
        "{{\"crop\":\"crops/x.png\",\"text\":\"{text}\",\"language\":\"ja\",\"direction\":\"ttb\",\
         \"source\":\"own-corpus\",\"provenance\":{{\"state\":\"{state}\",\"confidence\":1.0}}}}"
    )
}

fn texts(labels: &[Label]) -> Vec<(&str, bool)> {
    labels.iter().map(|l| (l.text.as_str(), l.intentional_negative)).collect()
}

#[test]
fn a_jsonl_file_yields_one_label_per_record_line_in_order() {
    let raw = format!(
        "{}\n\n   \n{}\n",
        pair_line("こんにちは", "verified"),
        pair_line("こんばんは", "accepted")
    );
    let labels = labels_of_file(FileKind::Jsonl, &raw).expect("labels");
    assert_eq!(texts(&labels), vec![("こんにちは", false), ("こんばんは", false)]);
}

#[test]
fn a_json_file_is_one_record() {
    let raw = format!("  {}\n", pair_line("世界だれ", "verified"));
    let labels = labels_of_file(FileKind::Json, &raw).expect("label");
    assert_eq!(texts(&labels), vec![("世界だれ", false)]);
}

#[test]
fn other_files_yield_nothing() {
    let labels = labels_of_file(FileKind::Other, "not json at all").expect("nothing");
    assert!(labels.is_empty());
}

#[test]
fn a_rejected_line_fails_the_file_rather_than_being_filtered() {
    let raw = format!(
        "{}\n{}\n{{broken\n",
        pair_line("よい", "verified"),
        pair_line("わるい", "rejected")
    );
    match labels_of_file(FileKind::Jsonl, &raw) {
        Err((Some(2), LineFailure::Record(RecordError::Rejected))) => {}
        other => panic!("unexpected result: {other:?}"),
    }
}

#[test]
fn the_first_unparsable_line_is_reported_with_its_number() {
    let raw = format!(
        "{}\n\n{{\"text\": \n{}\n",
        pair_line("よい", "verified"),
        pair_line("わるい", "rejected")
    );
    match labels_of_file(FileKind::Jsonl, &raw) {
        Err((Some(3), LineFailure::Parse(msg))) => assert!(!msg.is_empty()),
        other => panic!("unexpected result: {other:?}"),
    }
}

#[test]
fn a_json_file_that_does_not_parse_has_no_line_number() {
    match labels_of_file(FileKind::Json, "[1, 2") {
        Err((None, LineFailure::Parse(_))) => {}
        other => panic!("unexpected result: {other:?}"),
    }
    match labels_of_file(FileKind::Json, "{\"text\": 3}") {
        Err((None, LineFailure::Record(RecordError::MissingText))) => {}
        other => panic!("unexpected result: {other:?}"),
    }
}

#[test]
fn an_intentional_negative_record_gives_an_empty_label() {
    let negative = "{\"crop\":\"crops/blank.png\",\"text\":\"\",\"empty_is_intentional\":true,\
                    \"provenance\":{\"state\":\"verified\",\"confidence\":1.0}}";
    let raw = format!("{}\n{}\n", pair_line("ねこ", "verified"), negative);
    let labels = labels_of_file(FileKind::Jsonl, &raw).expect("labels");
    assert_eq!(texts(&labels), vec![("ねこ", false), ("", true)]);
    assert_eq!(intentional_negatives(&labels), 1);
}

#[test]
fn crlf_lines_and_escapes_parse() {
    let raw = "{\"text\":\"WHAT WAS THAT\"}\r\n{\"text\":\"\\u3053\\u3093\"}\r\n";
    let labels = labels_of_file(FileKind::Jsonl, raw).expect("labels");
    assert_eq!(texts(&labels), vec![("WHAT WAS THAT", false), ("こん", false)]);
}

#[test]
fn corpus_files_are_told_apart_by_extension() {
    assert_eq!(corpus_file_kind("json"), FileKind::Json);
    assert_eq!(corpus_file_kind("jsonl"), FileKind::Jsonl);
    assert_eq!(corpus_file_kind("txt"), FileKind::Other);
    assert_eq!(corpus_file_kind(""), FileKind::Other);
    assert_eq!(corpus_file_kind("JSON"), FileKind::Other);
}

#[test]
fn an_empty_corpus_is_an_error() {
    assert_eq!(check_records(&vec![]), Err(CorpusError::NoRecords));
    assert_eq!(check_records(&vec![label("a", false)]), Ok(()));
    assert_eq!(corpus_report(0, &vec![], vocab(3), 1), Err(CorpusError::NoRecords));
}

#[test]
fn a_floor_admitting_nothing_refuses_the_report() {
    let labels = vec![label("あい", false)];
    assert_eq!(
        corpus_report(1, &labels, vocab(0), 99),
        Err(CorpusError::FloorAdmitsNothing { records: 1, min_frequency: 99 })
    );
}

#[test]
fn negatives_are_counted_in_the_report() {
    let labels = vec![label("ねこ", false), label("", true)];
    assert_eq!(intentional_negatives(&labels), 1);
    let report = corpus_report(1, &labels, vocab(2), 1).unwrap();
    assert_eq!(
        report,
        CorpusReport {
            files_read: 1,
            records_used: 2,
            intentional_negatives: 1,
            vocab: vocab(2),
        }
    );
}
