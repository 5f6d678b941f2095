use pointless_pointer::YamlEvent;
use pointless_pointer::YamlValueCollector;
use pointless_pointer::flatten_document;
use pointless_pointer::flatten_events;
use pointless_pointer::join_items;
use pointless_pointer::quote_item;

#[test]
fn scalar_value_records_its_path_and_line() {
    let records = flatten_document(String::from("f.yaml"), "a: 1\nb: 2").unwrap();
    assert_eq!(records.len(), 2);
    assert_eq!(records[0].0, vec!["a".to_string()]);
    assert_eq!(records[0].1.value, "1");
    assert_eq!(records[0].1.file, "f.yaml");
    assert_eq!(records[0].1.line, 1);
    assert_eq!(records[1].0, vec!["b".to_string()]);
    assert_eq!(records[1].1.value, "2");
    assert_eq!(records[1].1.line, 2);
}

#[test]
fn nested_mapping_builds_dotted_path() {
    let records = flatten_document(String::from("f.yaml"), "a:\n  b:\n    c: deep").unwrap();
    assert_eq!(records.len(), 1);
    assert_eq!(
        records[0].0,
        vec!["a".to_string(), "b".to_string(), "c".to_string()]
    );
    assert_eq!(records[0].1.value, "deep");
}

#[test]
fn sequence_serializes_quoted_and_order_preserving() {
    let records = flatten_document(String::from("f.yaml"), "list: [a, b, c]").unwrap();
    assert_eq!(records.len(), 1);
    assert_eq!(records[0].0, vec!["list".to_string()]);
    assert_eq!(records[0].1.value, "[\"a\", \"b\", \"c\"]");
    assert_eq!(records[0].1.line, 1);
}

#[test]
fn sequence_serialization_is_file_independent() {
    let first = flatten_document(String::from("one.yaml"), "list: [a, b, c]").unwrap();
    let second = flatten_document(String::from("two.yaml"), "list: [a, b, c]").unwrap();
    assert_eq!(first[0].1.value, second[0].1.value);
    assert_eq!(first[0].0, second[0].0);
    assert_eq!(first[0].1.line, second[0].1.line);
}

#[test]
fn block_sequence_is_one_record() {
    let records = flatten_document(String::from("f.yaml"), "list:\n  - a\n  - b").unwrap();
    assert_eq!(records.len(), 1);
    assert_eq!(records[0].0, vec!["list".to_string()]);
    assert_eq!(records[0].1.value, "[\"a\", \"b\"]");
}

#[test]
fn root_scalar_has_empty_path() {
    let records = flatten_document(String::from("f.yaml"), "hello").unwrap();
    assert_eq!(records.len(), 1);
    assert!(records[0].0.is_empty());
    assert_eq!(records[0].1.value, "hello");
}

#[test]
fn empty_document_has_no_records() {
    let records = flatten_document(String::from("f.yaml"), "").unwrap();
    assert!(records.is_empty());
}

#[test]
fn duplicate_keys_are_preserved_in_order() {
    let records = flatten_document(String::from("f.yaml"), "a: 1\na: 2").unwrap();
    assert_eq!(records.len(), 2);
    assert_eq!(records[0].1.value, "1");
    assert_eq!(records[1].1.value, "2");
}

#[test]
fn malformed_document_reports_an_error() {
    let result = flatten_document(String::from("f.yaml"), "a: [1, 2");
    assert!(result.is_err());
}

#[test]
fn collector_consumes_events_one_by_one() {
    let mut collector = YamlValueCollector::new(String::from("f.yaml"));
    collector.on_event(&YamlEvent::MappingStart);
    collector.on_event(&YamlEvent::Scalar {
        value: String::from("k"),
        line: 1,
    });
    collector.on_event(&YamlEvent::Scalar {
        value: String::from("v"),
        line: 1,
    });
    collector.on_event(&YamlEvent::MappingEnd);
    assert_eq!(collector.values.len(), 1);
    assert_eq!(collector.values[0].0, vec!["k".to_string()]);
    assert_eq!(collector.values[0].1.value, "v");
}

#[test]
fn flatten_events_matches_collector_runs() {
    let events = vec![
        YamlEvent::MappingStart,
        YamlEvent::Scalar {
            value: String::from("outer"),
            line: 1,
        },
        YamlEvent::SequenceStart { line: 1 },
        YamlEvent::Scalar {
            value: String::from("x"),
            line: 1,
        },
        YamlEvent::SequenceEnd,
        YamlEvent::MappingEnd,
    ];
    let records = flatten_events(String::from("f.yaml"), &events);
    assert_eq!(records.len(), 1);
    assert_eq!(records[0].0, vec!["outer".to_string()]);
    assert_eq!(records[0].1.value, "[\"x\"]");
    assert_eq!(records[0].1.line, 1);
}

#[test]
fn quoting_and_joining_build_the_serialized_form() {
    let quoted = quote_item("ab");
    assert_eq!(quoted, "\"ab\"");
    let items = vec![String::from("\"a\""), String::from("\"b\"")];
    assert_eq!(join_items(&items), "[\"a\", \"b\"]");
    assert_eq!(join_items(&Vec::new()), "[]");
}
