use ock::driver::{select_table, Selection};
use ock::format::format_columns;
use ock::selector::SelectorError;
use ock::Args;

#[test]
fn test_args_default_values() {
    // Test that the default values are set correctly
    // Note: This test requires creating Args programmatically
    // The actual CLI parsing is exercised by the front end
    let args = Args {
        rows: String::from(""),
        row_delimiter: String::from(r"\n"),
        columns: String::from(""),
        column_delimiter: String::from(r"\s"),
        input: String::from(""),
    };

    assert_eq!(args.rows, "");
    assert_eq!(args.row_delimiter, r"\n");
    assert_eq!(args.columns, "");
    assert_eq!(args.column_delimiter, r"\s");
    assert_eq!(args.input, "");
}

#[test]
fn test_parse_input_empty_string() {
    // An empty input argument means "read standard input", which cannot be
    // exercised in a unit test without a real pipe; the front end handles
    // it.  This documents the expected behavior.
    let _input = String::from("");
}

#[test]
fn test_column_projection_scenario() {
    // header selection by patterns: indices [1, 2], projected rows
    let input = "USER PID COMMAND\nroot 1 init\nuser 123 firefox";
    let selection = select_table(input, "", "pid,command", "", r"\s").unwrap();
    assert_eq!(selection.export_columns, vec![1, 2]);
    assert_eq!(
        selection.rows,
        vec![
            vec!["PID".to_string(), "COMMAND".to_string()],
            vec!["1".to_string(), "init".to_string()],
            vec!["123".to_string(), "firefox".to_string()],
        ]
    );
    let formatted = format_columns(&selection.rows);
    assert_eq!(formatted[0], "PID COMMAND");
    assert_eq!(formatted[1], "1   init");
    assert_eq!(formatted[2], "123 firefox");
}

#[test]
fn test_row_stride_scenario() {
    // rows 1:6:2 over six lines picks indices 0, 2, 4
    let input = "line1\nline2\nline3\nline4\nline5\nline6";
    let selection = select_table(input, "1:6:2", "", "", r"\s").unwrap();
    assert_eq!(
        selection.rows,
        vec![
            vec!["line1".to_string()],
            vec!["line3".to_string()],
            vec!["line5".to_string()],
        ]
    );
}

#[test]
fn test_row_pattern_range_scenario() {
    // a pattern range selects from its start match through its end match
    let input = "START_MARKER\ndata1\ndata2\nEND_MARKER\nextra";
    let selection = select_table(input, "start:end", "", "", r"\s").unwrap();
    assert_eq!(
        selection.rows,
        vec![
            vec!["START_MARKER".to_string()],
            vec!["data1".to_string()],
            vec!["data2".to_string()],
            vec!["END_MARKER".to_string()],
        ]
    );
}

#[test]
fn test_row_start_after_end_scenario() {
    // a start position after the end position selects nothing, without error
    let input = "a\nb\nc\nd\ne";
    let selection = select_table(input, "5:3", "", "", r"\s").unwrap();
    assert_eq!(selection.rows.len(), 0);
}

#[test]
fn test_identity_expression_scenario() {
    // empty expressions emit every row unchanged, as a single field
    let input = "alpha beta\ngamma  delta\nepsilon";
    let selection = select_table(input, "", "", "", r"\s").unwrap();
    assert_eq!(
        selection.rows,
        vec![
            vec!["alpha beta".to_string()],
            vec!["gamma  delta".to_string()],
            vec!["epsilon".to_string()],
        ]
    );
    assert_eq!(selection.export_columns.len(), 0);
    assert_eq!(selection.unmatched_selectors.len(), 0);
}

#[test]
fn test_unmatched_columns_warning_case() {
    // column clauses that match nothing: rows still project, to empty sets
    let input = "col1 col2\na b\nc d";
    let selection = select_table(input, "", "nonexistent", "", r"\s").unwrap();
    assert_eq!(selection.export_columns.len(), 0);
    assert_eq!(selection.unmatched_selectors, vec!["nonexistent".to_string()]);
    assert_eq!(selection.rows.len(), 3);
    assert!(selection.rows.iter().all(|r| r.is_empty()));
}

#[test]
fn test_union_duplicate_emission() {
    // an item matched by two clauses appears once per clause, in clause order
    let input = "USER PID\nroot 1";
    let selection = select_table(input, "", "2,pid", "", r"\s").unwrap();
    assert_eq!(selection.export_columns, vec![1, 1]);
    // projection walks the row's cells in order, keeping a cell once when
    // its index was exported, whatever the multiplicity
    assert_eq!(
        selection.rows,
        vec![vec!["PID".to_string()], vec!["1".to_string()]]
    );
}

#[test]
fn test_multiple_row_clause_emission_order() {
    // a row matched by two row clauses is emitted twice, in clause order
    let input = "a\nb\nc";
    let selection = select_table(input, "2,1:3", "", "", r"\s").unwrap();
    assert_eq!(
        selection.rows,
        vec![
            vec!["a".to_string()],
            vec!["b".to_string()],
            vec!["b".to_string()],
            vec!["c".to_string()],
        ]
    );
}

#[test]
fn test_empty_sequence_error() {
    // columns requested but nothing to scan
    let selection = select_table("", "", "1", "", r"\s");
    assert!(matches!(
        selection,
        Err(SelectorError::EmptySequence)
    ));
}

#[test]
fn test_row_parse_error_surfaces() {
    let selection = select_table("a\nb", "1:10:0", "", "", r"\s");
    let err = selection.unwrap_err();
    assert!(err.message().contains("step size must be a positive integer"));
    assert!(err.message().contains("1:10:0"));
}

#[test]
fn test_invalid_row_delimiter_error() {
    let selection = select_table("a b", "", "", "(bad", r"\s");
    let err = selection.unwrap_err();
    assert!(matches!(err, SelectorError::InvalidPattern { .. }));
}

#[test]
fn test_negative_row_selection() {
    // the last two rows, via from-end bounds
    let input = "r1\nr2\nr3\nr4";
    let selection = select_table(input, "-2:-1", "", "", r"\s").unwrap();
    assert_eq!(
        selection.rows,
        vec![vec!["r3".to_string()], vec!["r4".to_string()]]
    );
}

#[test]
fn test_selection_struct_fields() {
    let selection: Selection = select_table("h1 h2\nv1 v2", "", "1", "", r"\s").unwrap();
    assert_eq!(selection.export_columns, vec![0]);
    assert_eq!(selection.unmatched_selectors.len(), 0);
    assert_eq!(
        selection.rows,
        vec![vec!["h1".to_string()], vec!["v1".to_string()]]
    );
}

#[test]
fn test_csv_row_and_column_selection() {
    let input = "name,age,city\nAlice,30,NYC\nBob,25,LA";
    let selection = select_table(input, "", "name,city", "", ",").unwrap();
    assert_eq!(selection.export_columns, vec![0, 2]);
    assert_eq!(
        selection.rows,
        vec![
            vec!["name".to_string(), "city".to_string()],
            vec!["Alice".to_string(), "NYC".to_string()],
            vec!["Bob".to_string(), "LA".to_string()],
        ]
    );
}

#[test]
fn test_row_range_with_column_index() {
    let input = "h1 h2 h3\na1 a2 a3\nb1 b2 b3";
    let selection = select_table(input, "2:3", "2", "", r"\s").unwrap();
    assert_eq!(selection.export_columns, vec![1]);
    assert_eq!(
        selection.rows,
        vec![vec!["a2".to_string()], vec!["b2".to_string()]]
    );
}

#[test]
fn test_case_insensitive_pattern_matching() {
    // the pattern is case-insensitive and unanchored; a wrapper that
    // compared texts literally would fail here
    let input = "Alpha\nBETA\ngamma_beta_delta";
    let selection = select_table(input, "beta", "", "", r"\s").unwrap();
    assert_eq!(
        selection.rows,
        vec![
            vec!["BETA".to_string()],
            vec!["gamma_beta_delta".to_string()],
        ]
    );
}
