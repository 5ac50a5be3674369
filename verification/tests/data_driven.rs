use golem_runner::data_driven::{expand_data_rows, format_label, get_runs, DataRow};

fn row(pairs: &[(&str, &str)]) -> DataRow {
    DataRow::from_pairs(pairs.iter().map(|(k, v)| (k.to_string(), v.to_string())).collect())
}

#[test]
fn single_row_produces_one_run() {
    let data = vec![row(&[("payment", "credit_card")])];
    let runs = expand_data_rows(&data);
    assert_eq!(runs.len(), 1);
}

#[test]
fn multiple_rows_produce_correct_count() {
    let data = vec![row(&[("x", "1")]), row(&[("x", "2")]), row(&[("x", "3")])];
    let runs = expand_data_rows(&data);
    assert_eq!(runs.len(), 3);
}

#[test]
fn empty_data_produces_default_run() {
    let runs = get_runs(&[]);
    assert_eq!(runs.len(), 1);
    assert_eq!(runs[0].label, "default");
    assert!(runs[0].vars.is_empty());
    assert_eq!(runs[0].index, 0);
}

#[test]
fn label_format_is_readable() {
    let r = row(&[("payment", "credit_card"), ("expected", "$29.99")]);
    let label = format_label(0, &r);
    assert_eq!(label, "data[0]: expected=$29.99, payment=credit_card");
}

#[test]
fn data_run_index_matches_position() {
    let data = vec![row(&[("a", "1")]), row(&[("a", "2")]), row(&[("a", "3")])];
    let runs = expand_data_rows(&data);
    for (i, run) in runs.iter().enumerate() {
        assert_eq!(run.index, i, "run at position {i} SHALL have index {i}");
    }
}

#[test]
fn each_run_has_independent_variables() {
    let data = vec![
        row(&[("user", "alice"), ("role", "admin")]),
        row(&[("user", "bob"), ("role", "viewer")]),
    ];
    let runs = expand_data_rows(&data);
    assert_eq!(runs[0].vars.get("user").map(|s| s.as_str()), Some("alice"));
    assert_eq!(runs[0].vars.get("role").map(|s| s.as_str()), Some("admin"));
    assert_eq!(runs[1].vars.get("user").map(|s| s.as_str()), Some("bob"));
    assert_eq!(runs[1].vars.get("role").map(|s| s.as_str()), Some("viewer"));
}

#[test]
fn get_runs_with_data_delegates_to_expand() {
    let data = vec![row(&[("k", "v1")]), row(&[("k", "v2")])];
    let runs = get_runs(&data);
    assert_eq!(runs.len(), 2);
    assert_eq!(runs[0].vars.get("k").map(|s| s.as_str()), Some("v1"));
    assert_eq!(runs[1].vars.get("k").map(|s| s.as_str()), Some("v2"));
}

#[test]
fn label_for_empty_row() {
    let r = DataRow::new();
    let label = format_label(0, &r);
    assert_eq!(label, "data[0]: ");
}

#[test]
fn expand_empty_slice_returns_empty() {
    let runs = expand_data_rows(&[]);
    assert!(runs.is_empty(), "expanding an empty slice SHALL yield no runs");
}

#[test]
fn expand_sets_label_per_row() {
    let data = vec![row(&[("payment", "credit_card")]), row(&[("payment", "paypal")])];
    let runs = expand_data_rows(&data);
    assert_eq!(runs[0].label, "data[0]: payment=credit_card");
    assert_eq!(runs[1].label, "data[1]: payment=paypal");
}

#[test]
fn label_uses_provided_index() {
    let r = row(&[("x", "1")]);
    let label = format_label(7, &r);
    assert_eq!(label, "data[7]: x=1");
}

#[test]
fn label_single_pair_has_no_comma() {
    let r = row(&[("only", "one")]);
    let label = format_label(0, &r);
    assert_eq!(label, "data[0]: only=one");
}

#[test]
fn label_does_not_depend_on_insertion_order() {
    let a = row(&[("b", "2"), ("a", "1"), ("c", "3")]);
    let b = row(&[("c", "3"), ("b", "2"), ("a", "1")]);
    assert_eq!(format_label(4, &a), format_label(4, &b));
    assert_eq!(format_label(4, &a), "data[4]: a=1, b=2, c=3");
}

#[test]
fn insert_then_get_reads_the_new_value() {
    let mut r = row(&[("user", "alice"), ("role", "admin")]);
    r.insert("user".to_string(), "carol".to_string());
    assert_eq!(r.get("user").map(|s| s.as_str()), Some("carol"));
    assert_eq!(r.get("role").map(|s| s.as_str()), Some("admin"));
    assert_eq!(r.len(), 2);
    r.insert("team".to_string(), "qa".to_string());
    assert_eq!(r.get("team").map(|s| s.as_str()), Some("qa"));
    assert_eq!(r.len(), 3);
    assert_eq!(r.get("missing"), None);
}

#[test]
fn later_duplicate_pair_overrides_earlier() {
    let r = row(&[("k", "first"), ("k", "second")]);
    assert_eq!(r.len(), 1);
    assert_eq!(r.get("k").map(|s| s.as_str()), Some("second"));
}

#[test]
fn label_sorts_by_code_point() {
    let r = row(&[("b", "x"), ("B", "y"), ("a", "z")]);
    assert_eq!(format_label(0, &r), "data[0]: B=y, a=z, b=x");
}

#[test]
fn label_sorts_by_key_not_by_pair_text() {
    // `a-b=2` sorts before `a=1` as text, but key `a` comes before `a-b`.
    let r = row(&[("a-b", "2"), ("a", "1")]);
    assert_eq!(format_label(0, &r), "data[0]: a=1, a-b=2");
}
