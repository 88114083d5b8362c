use ock::matcher::{item_in_sequence, item_in_sequence_with_state, SelectionState};
use ock::selector::{parse_selectors, Bound, Selector};

#[test]
fn test_item_in_sequence_single_index() {
    let selector = Selector {
        start: Bound::Index(3),
        end: Bound::Index(3),
        step: 1,
        single_item: false,
    };
    let resolved = selector.resolve_indices(10);
    let mut state = SelectionState::new();

    let item = String::from("test");
    assert!(!item_in_sequence(0, &item, &resolved, &mut state));
    assert!(!item_in_sequence(1, &item, &resolved, &mut state));
    assert!(item_in_sequence(2, &item, &resolved, &mut state));
    assert!(!item_in_sequence(3, &item, &resolved, &mut state));
}

#[test]
fn test_item_in_sequence_range() {
    let selector = Selector {
        start: Bound::Index(3),
        end: Bound::Index(6),
        step: 1,
        single_item: false,
    };
    let resolved = selector.resolve_indices(10);
    let mut state = SelectionState::new();

    let item = String::from("test");
    assert!(!item_in_sequence(0, &item, &resolved, &mut state));
    assert!(!item_in_sequence(1, &item, &resolved, &mut state));
    assert!(item_in_sequence(2, &item, &resolved, &mut state));
    assert!(item_in_sequence(3, &item, &resolved, &mut state));
    assert!(item_in_sequence(4, &item, &resolved, &mut state));
    assert!(item_in_sequence(5, &item, &resolved, &mut state));
    assert!(!item_in_sequence(6, &item, &resolved, &mut state));
}

#[test]
fn test_item_in_sequence_with_step() {
    let selector = Selector {
        start: Bound::Index(0),
        end: Bound::Index(10),
        step: 2,
        single_item: false,
    };
    let resolved = selector.resolve_indices(20);
    let mut state = SelectionState::new();

    let item = String::from("test");
    assert!(item_in_sequence(0, &item, &resolved, &mut state));
    assert!(!item_in_sequence(1, &item, &resolved, &mut state));
    assert!(item_in_sequence(2, &item, &resolved, &mut state));
    assert!(!item_in_sequence(3, &item, &resolved, &mut state));
    assert!(item_in_sequence(4, &item, &resolved, &mut state));
    assert!(!item_in_sequence(5, &item, &resolved, &mut state));
    assert!(item_in_sequence(6, &item, &resolved, &mut state));
}

#[test]
fn test_item_in_sequence_regex_single() {
    let mut selectors = parse_selectors("pid").unwrap();
    let selector = selectors.remove(0);
    let resolved = selector.resolve_indices(10);
    let mut state = SelectionState::new();

    let pid_item = String::from("PID");
    let user_item = String::from("USER");
    let process_pid = String::from("process_pid");

    assert!(item_in_sequence(0, &pid_item, &resolved, &mut state));
    assert!(!item_in_sequence(1, &user_item, &resolved, &mut state));
    assert!(item_in_sequence(2, &process_pid, &resolved, &mut state));
}

#[test]
fn test_item_in_sequence_regex_range() {
    let mut selectors = parse_selectors("start:end").unwrap();
    let selector = selectors.remove(0);
    let resolved = selector.resolve_indices(10);
    let mut state = SelectionState::new();

    let start = String::from("START");
    let middle = String::from("MIDDLE");
    let end = String::from("END");

    // Before match
    assert!(!item_in_sequence(0, &middle, &resolved, &mut state));

    // Start match
    assert!(item_in_sequence(1, &start, &resolved, &mut state));

    // Middle items (after start has been found)
    assert!(item_in_sequence(2, &middle, &resolved, &mut state));

    // End match
    assert!(item_in_sequence(3, &end, &resolved, &mut state));

    // After the end the clause is stopped
    assert!(!item_in_sequence(4, &middle, &resolved, &mut state));
}

#[test]
fn test_item_in_sequence_stopped() {
    let selector = Selector {
        start: Bound::Index(3),
        end: Bound::Index(3),
        step: 1,
        single_item: false,
    };
    let resolved = selector.resolve_indices(10);
    let mut state = SelectionState::new();

    let item = String::from("test");
    assert!(item_in_sequence(2, &item, &resolved, &mut state));
    assert!(state.stopped); // Should be stopped after single selection
}

#[test]
fn test_item_in_sequence_negative_index() {
    let selector = Selector {
        start: Bound::Index(-1),
        end: Bound::Index(-1),
        step: 1,
        single_item: false,
    };
    let mut state = SelectionState::new();

    let item = String::from("test");
    assert!(!item_in_sequence_with_state(1, &item, &selector, &mut state, 3));
    assert!(item_in_sequence_with_state(2, &item, &selector, &mut state, 3));
}

#[test]
fn test_item_in_sequence_negative_range() {
    let selector = Selector {
        start: Bound::Index(1),
        end: Bound::Index(-1),
        step: 1,
        single_item: false,
    };
    let mut state = SelectionState::new();

    // the end bound -1 over 5 items resolves to position 4, inclusive
    let item = String::from("test");
    assert!(item_in_sequence_with_state(0, &item, &selector, &mut state, 5));
    assert!(item_in_sequence_with_state(3, &item, &selector, &mut state, 5));
    assert!(item_in_sequence_with_state(4, &item, &selector, &mut state, 5));
}

#[test]
fn test_item_in_sequence_negative_range_out_of_bounds() {
    let selector = Selector {
        start: Bound::Index(1),
        end: Bound::Index(-10),
        step: 1,
        single_item: false,
    };
    let mut state = SelectionState::new();

    let item = String::from("test");
    assert!(!item_in_sequence_with_state(0, &item, &selector, &mut state, 5));
    assert!(!item_in_sequence_with_state(4, &item, &selector, &mut state, 5));
}
