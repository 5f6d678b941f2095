use pointless_pointer::DuplicateKeyWarning;
use pointless_pointer::Override;
use pointless_pointer::PointlessPointer;
use pointless_pointer::ValueWithLocation;
use pointless_pointer::find_pointless_overrides_and_warnings;

fn run_chain(base: &str, overrides: &[&str]) -> (Vec<Override>, Vec<DuplicateKeyWarning>) {
    let mut names: Vec<String> = Vec::new();
    for i in 0..overrides.len() {
        names.push(format!("override{}.yaml", i + 1));
    }
    let analyzer = PointlessPointer::new(String::from("base.yaml"), names);
    let texts: Vec<String> = overrides.iter().map(|s| s.to_string()).collect();
    analyzer
        .analyze(base, &texts)
        .expect("every document should parse")
}

fn record(path: &[&str], value: &str, file: &str, line: usize) -> (Vec<String>, ValueWithLocation) {
    (
        path.iter().map(|s| s.to_string()).collect(),
        ValueWithLocation {
            value: value.to_string(),
            file: file.to_string(),
            line,
        },
    )
}

#[test]
fn identical_override_is_flagged_once() {
    let (pointless, warnings) = run_chain("a: 1", &["a: 1"]);
    assert_eq!(pointless.len(), 1);
    assert!(warnings.is_empty());
    let o = &pointless[0];
    assert_eq!(o.path, vec!["a".to_string()]);
    assert_eq!(o.value, "1");
    assert_eq!(o.file, "override1.yaml");
    assert_eq!(o.previous_value, "1");
    assert_eq!(o.previous_file, "base.yaml");
    assert_eq!(o.line, 1);
    assert_eq!(o.previous_line, 1);
}

#[test]
fn changed_override_is_not_flagged() {
    let (pointless, warnings) = run_chain("a: 1", &["a: 2"]);
    assert!(pointless.is_empty());
    assert!(warnings.is_empty());
}

#[test]
fn duplicate_key_same_value_in_one_file() {
    let (pointless, warnings) = run_chain("a: 1\na: 1", &[]);
    assert_eq!(pointless.len(), 1);
    assert!(warnings.is_empty());
    let o = &pointless[0];
    assert_eq!(o.file, "base.yaml");
    assert_eq!(o.previous_file, "base.yaml");
    assert_eq!(o.path, vec!["a".to_string()]);
    assert_eq!(o.previous_line, 1);
    assert_eq!(o.line, 2);
}

#[test]
fn duplicate_key_differing_values_warns() {
    let (pointless, warnings) = run_chain("a: 1\na: 2", &[]);
    assert!(pointless.is_empty());
    assert_eq!(warnings.len(), 1);
    let w = &warnings[0];
    assert_eq!(w.file, "base.yaml");
    assert_eq!(w.path, vec!["a".to_string()]);
    assert_eq!(w.first_value, "1");
    assert_eq!(w.first_line, 1);
    assert_eq!(w.second_value, "2");
    assert_eq!(w.second_line, 2);
}

#[test]
fn nearest_prior_layer_is_cited() {
    let (pointless, warnings) = run_chain("x: 1", &["x: 2", "x: 2"]);
    assert!(warnings.is_empty());
    assert_eq!(pointless.len(), 1);
    let o = &pointless[0];
    assert_eq!(o.file, "override2.yaml");
    assert_eq!(o.value, "2");
    assert_eq!(o.previous_file, "override1.yaml");
    assert_eq!(o.previous_value, "2");
}

#[test]
fn repeated_sequence_is_flagged() {
    let (pointless, warnings) = run_chain("list: [a, b]", &["list: [a, b]"]);
    assert!(warnings.is_empty());
    assert_eq!(pointless.len(), 1);
    let o = &pointless[0];
    assert_eq!(o.path, vec!["list".to_string()]);
    assert_eq!(o.value, "[\"a\", \"b\"]");
    assert_eq!(o.previous_value, "[\"a\", \"b\"]");
    assert_eq!(o.previous_file, "base.yaml");
}

#[test]
fn intra_file_findings_come_before_cross_layer_findings() {
    let (pointless, warnings) = run_chain("a: 1", &["a: 1\na: 1"]);
    assert!(warnings.is_empty());
    // one intra-file duplicate in the override, then both of its records
    // repeat the base's effective value
    assert_eq!(pointless.len(), 3);
    assert_eq!(pointless[0].file, "override1.yaml");
    assert_eq!(pointless[0].previous_file, "override1.yaml");
    assert_eq!(pointless[0].previous_line, 1);
    assert_eq!(pointless[0].line, 2);
    assert_eq!(pointless[1].previous_file, "base.yaml");
    assert_eq!(pointless[1].line, 1);
    assert_eq!(pointless[2].previous_file, "base.yaml");
    assert_eq!(pointless[2].line, 2);
}

#[test]
fn third_occurrence_compared_against_second() {
    let file = vec![
        record(&["a"], "1", "f.yaml", 1),
        record(&["a"], "2", "f.yaml", 2),
        record(&["a"], "2", "f.yaml", 3),
    ];
    let (pointless, warnings) = find_pointless_overrides_and_warnings(&vec![file]);
    assert_eq!(warnings.len(), 1);
    assert_eq!(warnings[0].first_value, "1");
    assert_eq!(warnings[0].second_value, "2");
    assert_eq!(pointless.len(), 1);
    assert_eq!(pointless[0].value, "2");
    assert_eq!(pointless[0].previous_line, 2);
    assert_eq!(pointless[0].line, 3);
}

#[test]
fn later_record_in_earlier_layer_wins_snapshot() {
    let base = vec![
        record(&["k"], "1", "base.yaml", 1),
        record(&["k"], "3", "base.yaml", 2),
    ];
    let over = vec![record(&["k"], "3", "over.yaml", 1)];
    let (pointless, warnings) = find_pointless_overrides_and_warnings(&vec![base, over]);
    // the base's own duplicate differs in value, so it only warns; the
    // override repeats the base's later value
    assert_eq!(warnings.len(), 1);
    assert_eq!(pointless.len(), 1);
    assert_eq!(pointless[0].file, "over.yaml");
    assert_eq!(pointless[0].previous_value, "3");
    assert_eq!(pointless[0].previous_line, 2);
}

#[test]
fn analysis_is_idempotent() {
    let base = vec![
        record(&["a"], "1", "base.yaml", 1),
        record(&["b"], "2", "base.yaml", 2),
    ];
    let over = vec![
        record(&["a"], "1", "over.yaml", 1),
        record(&["b"], "3", "over.yaml", 2),
    ];
    let all = vec![base, over];
    let first = find_pointless_overrides_and_warnings(&all);
    let second = find_pointless_overrides_and_warnings(&all);
    assert_eq!(format!("{:?}", first), format!("{:?}", second));
}

#[test]
fn paths_are_compared_structurally() {
    let base = vec![record(&["a", "b"], "1", "base.yaml", 1)];
    let over = vec![record(&["a"], "1", "over.yaml", 1)];
    let (pointless, warnings) = find_pointless_overrides_and_warnings(&vec![base, over]);
    assert!(pointless.is_empty());
    assert!(warnings.is_empty());
}

#[test]
fn empty_chain_yields_nothing() {
    let (pointless, warnings) = find_pointless_overrides_and_warnings(&Vec::new());
    assert!(pointless.is_empty());
    assert!(warnings.is_empty());
}

#[test]
fn malformed_document_aborts_the_run() {
    let analyzer = PointlessPointer::new(String::from("base.yaml"), Vec::new());
    let result = analyzer.analyze("a: [1, 2", &Vec::new());
    assert!(result.is_err());
}

#[test]
fn malformed_override_aborts_the_run() {
    let analyzer = PointlessPointer::new(
        String::from("base.yaml"),
        vec![String::from("override1.yaml")],
    );
    let texts = vec![String::from("a: [1, 2")];
    let result = analyzer.analyze("a: 1", &texts);
    assert!(result.is_err());
}
