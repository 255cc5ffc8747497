//! Further scenarios: repeated edits against the history, numeric edge
//! forms, and duplicate sort keys.

use csv_navigator::data::{ColType, CsvTable, FilterCondition, FilterLogic, FilterOperator, SortOrder};

#[test]
fn test_n_edits_undo_redo_round_trip() {
    // Five sequential edits on one cell undo five times back to the
    // original value and redo five times forward to the final value.
    let mut table = CsvTable::new();
    table.data.push(vec!["v0".to_string()]);
    table.col_types = vec![ColType::Text];

    for k in 1..=5 {
        table.set_cell(0, 0, format!("v{}", k));
    }
    assert_eq!(table.get_cell(0, 0), Some("v5"));

    for _ in 0..5 {
        table.undo().unwrap();
    }
    assert_eq!(table.get_cell(0, 0), Some("v0"));
    assert!(!table.can_undo());

    for _ in 0..5 {
        table.redo().unwrap();
    }
    assert_eq!(table.get_cell(0, 0), Some("v5"));
    assert!(!table.can_redo());

    // a new edit after an undo clears the redo chain
    table.undo().unwrap();
    table.set_cell(0, 0, "w".to_string());
    assert!(!table.can_redo());
}

#[test]
fn test_numeric_edge_forms() {
    // Signs, a leading or trailing point, and exponents all parse; blank
    // and alphabetic cells do not.
    let mut table = CsvTable::new();
    table.data.push(vec!["+5".to_string()]);
    table.data.push(vec![".5".to_string()]);
    table.data.push(vec!["5.".to_string()]);
    table.data.push(vec!["-0".to_string()]);
    table.data.push(vec!["2E-1".to_string()]);
    table.col_types = vec![ColType::Text];

    table.infer_column_types(None);
    assert_eq!(table.col_types[0], ColType::Number);

    // 0.2 < 0.5 == .5 < 5 == +5 == 5. ; -0 == 0 smallest
    table.sort_by_column(0, SortOrder::Ascending).unwrap();
    assert_eq!(table.get_cell(0, 0), Some("-0"));
    assert_eq!(table.get_cell(1, 0), Some("2E-1"));
    assert_eq!(table.get_cell(2, 0), Some(".5"));
}

#[test]
fn test_numeric_equality_across_forms() {
    // "30", "30.0" and "3e1" denote one value.
    let mut table = CsvTable::new();
    table.data.push(vec!["30.0".to_string()]);
    table.data.push(vec!["29".to_string()]);
    table.data.push(vec!["3e1".to_string()]);
    table.col_types = vec![ColType::Number];

    let conditions = vec![FilterCondition::new(0, FilterOperator::Equals, "30".to_string())];
    table.apply_filters(&conditions, FilterLogic::All);

    let visible: Vec<usize> = table.visible_indices();
    assert_eq!(visible, vec![0, 2]);
}

#[test]
fn test_sort_with_duplicate_keys_keeps_all_rows() {
    let mut table = CsvTable::new();
    table.data.push(vec!["2".to_string(), "a".to_string()]);
    table.data.push(vec!["1".to_string(), "b".to_string()]);
    table.data.push(vec!["2".to_string(), "c".to_string()]);
    table.data.push(vec!["1".to_string(), "d".to_string()]);
    table.col_types = vec![ColType::Number, ColType::Text];

    table.sort_by_column(0, SortOrder::Ascending).unwrap();

    assert_eq!(table.row_count(), 4);
    assert_eq!(table.get_cell(0, 0), Some("1"));
    assert_eq!(table.get_cell(1, 0), Some("1"));
    assert_eq!(table.get_cell(2, 0), Some("2"));
    assert_eq!(table.get_cell(3, 0), Some("2"));
    let mut seconds: Vec<String> = Vec::new();
    for i in 0..4 {
        seconds.push(table.get_cell(i, 1).unwrap().to_string());
    }
    seconds.sort();
    assert_eq!(seconds, vec!["a", "b", "c", "d"]);
}

#[test]
fn test_text_sort_is_byte_order_without_folding() {
    // Text sorting compares raw strings: upper-case letters come before
    // lower-case ones.
    let mut table = CsvTable::new();
    table.data.push(vec!["apple".to_string()]);
    table.data.push(vec!["Banana".to_string()]);
    table.col_types = vec![ColType::Text];

    table.sort_by_column(0, SortOrder::Ascending).unwrap();

    assert_eq!(table.get_cell(0, 0), Some("Banana"));
    assert_eq!(table.get_cell(1, 0), Some("apple"));
}

#[test]
fn test_filter_case_insensitive_uses_folding() {
    // Equals on a text column folds case on both sides; this fails if case
    // folding handed its input back unchanged.
    let mut table = CsvTable::new();
    table.data.push(vec!["ALICE".to_string()]);
    table.data.push(vec!["bob".to_string()]);
    table.col_types = vec![ColType::Text];

    let conditions = vec![FilterCondition::new(0, FilterOperator::Equals, "Alice".to_string())];
    table.apply_filters(&conditions, FilterLogic::All);

    let visible: Vec<usize> = table.visible_indices();
    assert_eq!(visible, vec![0]);
}

#[test]
fn test_filter_number_greater_requires_both_sides_numeric() {
    // A non-numeric literal excludes every row under GreaterThan.
    let mut table = CsvTable::new();
    table.data.push(vec!["30".to_string()]);
    table.data.push(vec!["50".to_string()]);
    table.col_types = vec![ColType::Number];

    let conditions = vec![FilterCondition::new(0, FilterOperator::GreaterThan, "x".to_string())];
    table.apply_filters(&conditions, FilterLogic::All);

    // no row matches, which collapses to no filter
    assert!(!table.is_filtered());
}
