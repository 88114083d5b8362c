use ock::format::format_columns;

#[test]
fn test_column_alignment_empty_output() {
    let output: Vec<Vec<String>> = Vec::new();
    let result = format_columns(&output);
    assert_eq!(result.len(), 0);
}

#[test]
fn test_column_alignment_single_column() {
    let output = vec![
        vec!["a".to_string()],
        vec!["bb".to_string()],
        vec!["ccc".to_string()],
    ];
    let result = format_columns(&output);
    assert_eq!(result.len(), 3);
    assert_eq!(result[0], "a");
    assert_eq!(result[1], "bb");
    assert_eq!(result[2], "ccc");
}

#[test]
fn test_column_alignment_basic() {
    let output = vec![
        vec!["a".to_string(), "bb".to_string(), "ccc".to_string()],
        vec!["1111".to_string(), "2".to_string(), "33".to_string()],
    ];
    let result = format_columns(&output);
    assert_eq!(result.len(), 2);
    assert_eq!(result[0], "a    bb ccc");
    assert_eq!(result[1], "1111 2  33");
}

#[test]
fn test_column_alignment_varying_widths() {
    let output = vec![
        vec![
            "short".to_string(),
            "medium".to_string(),
            "very_long_content".to_string(),
        ],
        vec!["x".to_string(), "y".to_string(), "z".to_string()],
        vec!["longer".to_string(), "text".to_string(), "here".to_string()],
    ];
    let result = format_columns(&output);
    assert_eq!(result.len(), 3);
    assert_eq!(result[0], "short  medium very_long_content");
    assert_eq!(result[1], "x      y      z");
    assert_eq!(result[2], "longer text   here");
}

#[test]
fn test_column_alignment_empty_cells() {
    let output = vec![
        vec!["a".to_string(), "b".to_string(), "c".to_string()],
        vec!["".to_string(), "longer".to_string(), "".to_string()],
        vec!["d".to_string(), "".to_string(), "f".to_string()],
    ];
    let result = format_columns(&output);
    assert_eq!(result.len(), 3);
    assert_eq!(result[0], "a b      c");
    assert_eq!(result[1], "  longer ");
    assert_eq!(result[2], "d        f");
}

#[test]
fn test_column_alignment_different_row_lengths() {
    // Test rows with different numbers of columns
    let output = vec![
        vec!["a".to_string(), "b".to_string(), "c".to_string()],
        vec!["1".to_string()],
        vec!["d".to_string(), "e".to_string()],
    ];
    let result = format_columns(&output);
    assert_eq!(result.len(), 3);
    assert_eq!(result[0], "a b c");
    assert_eq!(result[1], "1");
    assert_eq!(result[2], "d e");
}

#[test]
fn test_column_alignment_unicode() {
    let output = vec![
        vec!["短".to_string(), "longer".to_string()],
        vec!["很长的文本".to_string(), "x".to_string()],
        vec!["中".to_string(), "medium".to_string()],
    ];
    let result = format_columns(&output);
    assert_eq!(result.len(), 3);
    // Note: This test verifies that the function handles unicode characters
    // The actual alignment might not be perfect for display due to character width differences
    assert_eq!(result[0], "短               longer");
    assert_eq!(result[1], "很长的文本           x");
    assert_eq!(result[2], "中               medium");
}

#[test]
fn test_column_alignment_numbers_text_special() {
    let output = vec![
        vec!["123".to_string(), "text".to_string(), "@#$%".to_string()],
        vec!["45".to_string(), "longer_text".to_string(), "!".to_string()],
        vec!["6789".to_string(), "a".to_string(), "~~".to_string()],
    ];
    let result = format_columns(&output);
    assert_eq!(result.len(), 3);
    assert_eq!(result[0], "123  text        @#$%");
    assert_eq!(result[1], "45   longer_text !");
    assert_eq!(result[2], "6789 a           ~~");
}

#[test]
fn test_column_alignment_single_row() {
    let output = vec![vec![
        "single".to_string(),
        "row".to_string(),
        "test".to_string(),
    ]];
    let result = format_columns(&output);
    assert_eq!(result.len(), 1);
    assert_eq!(result[0], "single row test");
}

#[test]
fn test_column_alignment_whitespace_preservation() {
    let output = vec![
        vec!["has spaces".to_string(), "no_spaces".to_string()],
        vec!["tabs\there".to_string(), "normal".to_string()],
    ];
    let result = format_columns(&output);
    assert_eq!(result.len(), 2);
    assert_eq!(result[0], "has spaces no_spaces");
    assert_eq!(result[1], "tabs\there  normal");
}

#[test]
fn test_column_alignment_very_long_cells() {
    let long_string = "this_is_a_very_long_string_that_should_affect_column_width";
    let output = vec![
        vec!["short".to_string(), long_string.to_string()],
        vec!["x".to_string(), "y".to_string()],
    ];
    let result = format_columns(&output);
    assert_eq!(result.len(), 2);
    assert_eq!(result[0], format!("short {}", long_string));
    assert_eq!(result[1], format!("x     {}", "y"));
}
