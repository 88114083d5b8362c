use ock::driver::{get_cells, get_columns, get_columns_with_match_info};
use ock::selector::{parse_selectors, Selector};

#[test]
fn test_get_columns_no_selectors() {
    let row = String::from("col1 col2 col3");
    let selectors: Vec<Selector> = Vec::new();
    let delimiter = String::from(r"\s");

    let result = get_columns(&row, &selectors, &delimiter).unwrap();
    assert_eq!(result.len(), 0);
}

#[test]
fn test_get_columns_single_index() {
    let row = String::from("col1 col2 col3");
    let selectors = parse_selectors("2").unwrap();
    let delimiter = String::from(r"\s");

    let result = get_columns(&row, &selectors, &delimiter).unwrap();
    assert_eq!(result.len(), 1);
    assert_eq!(result[0], 1); // Column 2 is index 1
}

#[test]
fn test_get_columns_multiple_indices() {
    let row = String::from("col1 col2 col3 col4");
    let selectors = parse_selectors("1,3").unwrap();
    let delimiter = String::from(r"\s");

    let result = get_columns(&row, &selectors, &delimiter).unwrap();
    assert_eq!(result.len(), 2);
    assert_eq!(result[0], 0); // Column 1 is index 0
    assert_eq!(result[1], 2); // Column 3 is index 2
}

#[test]
fn test_get_columns_range() {
    let row = String::from("col1 col2 col3 col4");
    let selectors = parse_selectors("2:4").unwrap();
    let delimiter = String::from(r"\s");

    let result = get_columns(&row, &selectors, &delimiter).unwrap();
    assert_eq!(result.len(), 3);
    assert_eq!(result[0], 1); // Column 2
    assert_eq!(result[1], 2); // Column 3
    assert_eq!(result[2], 3); // Column 4
}

#[test]
fn test_get_columns_regex() {
    let row = String::from("USER PID COMMAND");
    let selectors = parse_selectors("pid").unwrap();
    let delimiter = String::from(r"\s");

    let result = get_columns(&row, &selectors, &delimiter).unwrap();
    assert_eq!(result.len(), 1);
    assert_eq!(result[0], 1); // PID is index 1
}

#[test]
fn test_get_columns_mixed() {
    let row = String::from("USER PID %CPU %MEM COMMAND");
    let selectors = parse_selectors("1,pid,%mem").unwrap();
    let delimiter = String::from(r"\s");

    let result = get_columns(&row, &selectors, &delimiter).unwrap();
    assert_eq!(result.len(), 3);
    assert_eq!(result[0], 0); // USER is index 0
    assert_eq!(result[1], 1); // PID is index 1
    assert_eq!(result[2], 3); // %MEM is index 3
}

#[test]
fn test_get_columns_custom_delimiter() {
    let row = String::from("col1,col2,col3,col4");
    let selectors = parse_selectors("2:3").unwrap();
    let delimiter = String::from(",");

    let result = get_columns(&row, &selectors, &delimiter).unwrap();
    assert_eq!(result.len(), 2);
    assert_eq!(result[0], 1); // col2
    assert_eq!(result[1], 2); // col3
}

#[test]
fn test_get_cells_no_selection() {
    let row = String::from("cell1 cell2 cell3");
    let cells_to_select: Vec<usize> = Vec::new();
    let delimiter = String::from(r"\s");

    let result = get_cells(&row, &cells_to_select, &delimiter, true).unwrap();
    assert_eq!(result.len(), 1);
    assert_eq!(result[0], "cell1 cell2 cell3");
}

#[test]
fn test_get_cells_single_cell() {
    let row = String::from("cell1 cell2 cell3");
    let cells_to_select = vec![1];
    let delimiter = String::from(r"\s");

    let result = get_cells(&row, &cells_to_select, &delimiter, false).unwrap();
    assert_eq!(result.len(), 1);
    assert_eq!(result[0], "cell2");
}

#[test]
fn test_get_cells_multiple_cells() {
    let row = String::from("cell1 cell2 cell3 cell4");
    let cells_to_select = vec![0, 2, 3];
    let delimiter = String::from(r"\s");

    let result = get_cells(&row, &cells_to_select, &delimiter, false).unwrap();
    assert_eq!(result.len(), 3);
    assert_eq!(result[0], "cell1");
    assert_eq!(result[1], "cell3");
    assert_eq!(result[2], "cell4");
}

#[test]
fn test_get_cells_out_of_order_indices() {
    let row = String::from("A B C D");
    let cells_to_select = vec![3, 1, 0];
    let delimiter = String::from(r"\s");

    let result = get_cells(&row, &cells_to_select, &delimiter, false).unwrap();
    assert_eq!(result.len(), 3);
    assert_eq!(result[0], "A");
    assert_eq!(result[1], "B");
    assert_eq!(result[2], "D");
}

#[test]
fn test_get_cells_custom_delimiter() {
    let row = String::from("a,b,c,d,e");
    let cells_to_select = vec![1, 3];
    let delimiter = String::from(",");

    let result = get_cells(&row, &cells_to_select, &delimiter, false).unwrap();
    assert_eq!(result.len(), 2);
    assert_eq!(result[0], "b");
    assert_eq!(result[1], "d");
}

#[test]
fn test_get_cells_tab_delimiter() {
    let row = String::from("field1\tfield2\tfield3");
    let cells_to_select = vec![0, 2];
    let delimiter = String::from(r"\t");

    let result = get_cells(&row, &cells_to_select, &delimiter, false).unwrap();
    assert_eq!(result.len(), 2);
    assert_eq!(result[0], "field1");
    assert_eq!(result[1], "field3");
}

#[test]
fn test_get_cells_empty_cells() {
    let row = String::from("a,,c");
    let cells_to_select = vec![0, 1];
    let delimiter = String::from(",");

    let result = get_cells(&row, &cells_to_select, &delimiter, false).unwrap();
    assert_eq!(result.len(), 2);
    assert_eq!(result[0], "a");
    assert_eq!(result[1], "c"); // Empty cell is filtered out
}

#[test]
fn test_get_cells_index_out_of_bounds() {
    let row = String::from("a b c");
    let cells_to_select = vec![0, 5, 10]; // Indices beyond the row length
    let delimiter = String::from(r"\s");

    let result = get_cells(&row, &cells_to_select, &delimiter, false).unwrap();
    assert_eq!(result.len(), 1);
    assert_eq!(result[0], "a"); // Only the valid index is included
}

#[test]
fn test_get_cells_all_indices_out_of_bounds() {
    let row = String::from("a b c");
    let cells_to_select = vec![5, 10, 15]; // All indices beyond the row length
    let delimiter = String::from(r"\s");

    let result = get_cells(&row, &cells_to_select, &delimiter, false).unwrap();
    assert_eq!(result.len(), 0);
}

#[test]
fn test_get_cells_preserves_spaces() {
    let row = String::from("hello world,foo bar,baz qux");
    let cells_to_select = vec![0, 2];
    let delimiter = String::from(",");

    let result = get_cells(&row, &cells_to_select, &delimiter, false).unwrap();
    assert_eq!(result.len(), 2);
    assert_eq!(result[0], "hello world");
    assert_eq!(result[1], "baz qux");
}

#[test]
fn test_get_columns_no_matches() {
    let row = String::from("col1 col2 col3");
    let selectors = parse_selectors("nonexistent").unwrap();
    let delimiter = String::from(r"\s");

    let result = get_columns(&row, &selectors, &delimiter).unwrap();
    assert_eq!(result.len(), 0); // Should return empty vector
}

#[test]
fn test_get_columns_mixed_valid_invalid() {
    let row = String::from("USER PID COMMAND");
    let selectors = parse_selectors("user,nonexistent,command").unwrap();
    let delimiter = String::from(r"\s");

    let result = get_columns(&row, &selectors, &delimiter).unwrap();
    assert_eq!(result.len(), 2); // Should find USER and COMMAND
    assert_eq!(result[0], 0); // USER is index 0
    assert_eq!(result[1], 2); // COMMAND is index 2
}

#[test]
fn test_get_columns_regex_no_match() {
    let row = String::from("USER PID COMMAND");
    let selectors = parse_selectors("memory,cpu,disk").unwrap();
    let delimiter = String::from(r"\s");

    let result = get_columns(&row, &selectors, &delimiter).unwrap();
    assert_eq!(result.len(), 0); // No pattern matches
}

#[test]
fn test_get_columns_numeric_out_of_bounds() {
    let row = String::from("col1 col2 col3");
    let selectors = parse_selectors("10,20,30").unwrap();
    let delimiter = String::from(r"\s");

    let result = get_columns(&row, &selectors, &delimiter).unwrap();
    assert_eq!(result.len(), 0); // All indices out of bounds
}

#[test]
fn test_get_columns_mixed_numeric_regex_no_matches() {
    let row = String::from("a b c");
    let selectors = parse_selectors("10,missing,xyz").unwrap();
    let delimiter = String::from(r"\s");

    let result = get_columns(&row, &selectors, &delimiter).unwrap();
    assert_eq!(result.len(), 0); // Neither numeric nor pattern matches
}

#[test]
fn test_get_columns_partial_range_match() {
    let row = String::from("col1 col2");
    let selectors = parse_selectors("1:5").unwrap(); // Range extends beyond available columns
    let delimiter = String::from(r"\s");

    let result = get_columns(&row, &selectors, &delimiter).unwrap();
    assert_eq!(result.len(), 2); // Should get both available columns (0 and 1)
    assert_eq!(result[0], 0);
    assert_eq!(result[1], 1);
}

#[test]
fn test_get_columns_empty_input() {
    let row = String::from("");
    let selectors = parse_selectors("1,2,test").unwrap();
    let delimiter = String::from(r"\s");

    let result = get_columns(&row, &selectors, &delimiter).unwrap();
    assert_eq!(result.len(), 0); // No columns in empty input
}

#[test]
fn test_get_columns_case_sensitive_regex() {
    let row = String::from("USER pid Command");
    let selectors = parse_selectors("PID").unwrap(); // Different case
    let delimiter = String::from(r"\s");

    let result = get_columns(&row, &selectors, &delimiter).unwrap();
    assert_eq!(result.len(), 1); // Should match (case-insensitive)
    assert_eq!(result[0], 1);
}

#[test]
fn test_get_columns_with_match_info_all_match() {
    let row = String::from("USER PID COMMAND");
    let selectors = parse_selectors("user,pid,command").unwrap();
    let delimiter = String::from(r"\s");
    let original_str = "user,pid,command";

    let (cols, unmatched) =
        get_columns_with_match_info(&row, &selectors, &delimiter, original_str).unwrap();

    assert_eq!(cols.len(), 3);
    assert_eq!(unmatched.len(), 0); // All should match
}

#[test]
fn test_get_columns_with_match_info_partial_match() {
    let row = String::from("USER PID COMMAND");
    let selectors = parse_selectors("user,missing,command").unwrap();
    let delimiter = String::from(r"\s");
    let original_str = "user,missing,command";

    let (cols, unmatched) =
        get_columns_with_match_info(&row, &selectors, &delimiter, original_str).unwrap();

    assert_eq!(cols.len(), 2); // USER and COMMAND match
    assert_eq!(unmatched.len(), 1);
    assert_eq!(unmatched[0], "missing");
}

#[test]
fn test_get_columns_with_match_info_no_match() {
    let row = String::from("col1 col2 col3");
    let selectors = parse_selectors("missing1,missing2").unwrap();
    let delimiter = String::from(r"\s");
    let original_str = "missing1,missing2";

    let (cols, unmatched) =
        get_columns_with_match_info(&row, &selectors, &delimiter, original_str).unwrap();

    assert_eq!(cols.len(), 0);
    assert_eq!(unmatched.len(), 2);
    assert_eq!(unmatched[0], "missing1");
    assert_eq!(unmatched[1], "missing2");
}

#[test]
fn test_get_columns_with_match_info_mixed_numeric_regex() {
    let row = String::from("USER PID COMMAND");
    let selectors = parse_selectors("1,missing,command").unwrap();
    let delimiter = String::from(r"\s");
    let original_str = "1,missing,command";

    let (cols, unmatched) =
        get_columns_with_match_info(&row, &selectors, &delimiter, original_str).unwrap();

    assert_eq!(cols.len(), 2); // Column 1 (USER) and COMMAND match
    assert_eq!(unmatched.len(), 1);
    assert_eq!(unmatched[0], "missing");
}

#[test]
fn test_get_columns_with_match_info_empty_selectors() {
    let row = String::from("col1 col2 col3");
    let selectors: Vec<Selector> = Vec::new();
    let delimiter = String::from(r"\s");
    let original_str = "";

    let (cols, unmatched) =
        get_columns_with_match_info(&row, &selectors, &delimiter, original_str).unwrap();

    assert_eq!(cols.len(), 0);
    assert_eq!(unmatched.len(), 0);
}

#[test]
fn test_get_columns_with_match_info_numeric_out_of_bounds() {
    let row = String::from("col1 col2");
    let selectors = parse_selectors("10,20").unwrap();
    let delimiter = String::from(r"\s");
    let original_str = "10,20";

    let (cols, unmatched) =
        get_columns_with_match_info(&row, &selectors, &delimiter, original_str).unwrap();

    assert_eq!(cols.len(), 0);
    assert_eq!(unmatched.len(), 2);
    assert_eq!(unmatched[0], "10");
    assert_eq!(unmatched[1], "20");
}

#[test]
fn test_get_columns_with_match_info_trims_unmatched() {
    let row = String::from("USER PID");
    let selectors = parse_selectors("user, missing").unwrap();
    let delimiter = String::from(r"\s");
    let original_str = "user, missing";

    let (cols, unmatched) =
        get_columns_with_match_info(&row, &selectors, &delimiter, original_str).unwrap();

    assert_eq!(cols.len(), 1);
    assert_eq!(unmatched.len(), 1);
    assert_eq!(unmatched[0], "missing"); // trimmed of the space after the comma
}
