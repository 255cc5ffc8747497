//! Tests of the filter engine.

use csv_navigator::data::{operator_to_string, string_to_operator, ColType, CsvTable, FilterCondition, FilterLogic, FilterOperator};

#[test]
fn test_filter_equals_text() {
    let mut table = CsvTable::new();
    table.data.push(vec!["Alice".to_string(), "30".to_string()]);
    table.data.push(vec!["Bob".to_string(), "25".to_string()]);
    table.data.push(vec!["alice".to_string(), "28".to_string()]);
    table.col_types = vec![ColType::Text, ColType::Number];

    let conditions = vec![FilterCondition::new(0, FilterOperator::Equals, "alice".to_string())];
    table.apply_filters(&conditions, FilterLogic::All);

    assert_eq!(table.visible_row_count(), 2); // Case insensitive match
    let visible: Vec<usize> = table.visible_indices();
    assert_eq!(visible, vec![0, 2]);
}

#[test]
fn test_filter_equals_number() {
    let mut table = CsvTable::new();
    table.data.push(vec!["Alice".to_string(), "30".to_string()]);
    table.data.push(vec!["Bob".to_string(), "25".to_string()]);
    table.data.push(vec!["Charlie".to_string(), "30".to_string()]);
    table.col_types = vec![ColType::Text, ColType::Number];

    let conditions = vec![FilterCondition::new(1, FilterOperator::Equals, "30".to_string())];
    table.apply_filters(&conditions, FilterLogic::All);

    assert_eq!(table.visible_row_count(), 2);
    let visible: Vec<usize> = table.visible_indices();
    assert_eq!(visible, vec![0, 2]);
}

#[test]
fn test_filter_contains() {
    let mut table = CsvTable::new();
    table.data.push(vec!["Alice Smith".to_string()]);
    table.data.push(vec!["Bob Jones".to_string()]);
    table.data.push(vec!["Charlie Smith".to_string()]);
    table.col_types = vec![ColType::Text];

    let conditions = vec![FilterCondition::new(0, FilterOperator::Contains, "smith".to_string())];
    table.apply_filters(&conditions, FilterLogic::All);

    assert_eq!(table.visible_row_count(), 2);
    let visible: Vec<usize> = table.visible_indices();
    assert_eq!(visible, vec![0, 2]);
}

#[test]
fn test_filter_not_contains() {
    let mut table = CsvTable::new();
    table.data.push(vec!["Alice Smith".to_string()]);
    table.data.push(vec!["Bob Jones".to_string()]);
    table.data.push(vec!["Charlie Smith".to_string()]);
    table.col_types = vec![ColType::Text];

    let conditions =
        vec![FilterCondition::new(0, FilterOperator::NotContains, "Smith".to_string())];
    table.apply_filters(&conditions, FilterLogic::All);

    assert_eq!(table.visible_row_count(), 1);
    let visible: Vec<usize> = table.visible_indices();
    assert_eq!(visible, vec![1]);
}

#[test]
fn test_filter_starts_with() {
    let mut table = CsvTable::new();
    table.data.push(vec!["Alice".to_string()]);
    table.data.push(vec!["Bob".to_string()]);
    table.data.push(vec!["Alex".to_string()]);
    table.col_types = vec![ColType::Text];

    let conditions = vec![FilterCondition::new(0, FilterOperator::StartsWith, "al".to_string())];
    table.apply_filters(&conditions, FilterLogic::All);

    assert_eq!(table.visible_row_count(), 2);
    let visible: Vec<usize> = table.visible_indices();
    assert_eq!(visible, vec![0, 2]);
}

#[test]
fn test_filter_ends_with() {
    let mut table = CsvTable::new();
    table.data.push(vec!["Alice".to_string()]);
    table.data.push(vec!["Bob".to_string()]);
    table.data.push(vec!["Eve".to_string()]);
    table.col_types = vec![ColType::Text];

    let conditions = vec![FilterCondition::new(0, FilterOperator::EndsWith, "e".to_string())];
    table.apply_filters(&conditions, FilterLogic::All);

    assert_eq!(table.visible_row_count(), 2);
    let visible: Vec<usize> = table.visible_indices();
    assert_eq!(visible, vec![0, 2]);
}

#[test]
fn test_filter_greater_than() {
    let mut table = CsvTable::new();
    table.data.push(vec!["30".to_string()]);
    table.data.push(vec!["25".to_string()]);
    table.data.push(vec!["35".to_string()]);
    table.col_types = vec![ColType::Number];

    let conditions = vec![FilterCondition::new(0, FilterOperator::GreaterThan, "28".to_string())];
    table.apply_filters(&conditions, FilterLogic::All);

    assert_eq!(table.visible_row_count(), 2);
    let visible: Vec<usize> = table.visible_indices();
    assert_eq!(visible, vec![0, 2]);
}

#[test]
fn test_filter_less_than() {
    let mut table = CsvTable::new();
    table.data.push(vec!["30".to_string()]);
    table.data.push(vec!["25".to_string()]);
    table.data.push(vec!["35".to_string()]);
    table.col_types = vec![ColType::Number];

    let conditions = vec![FilterCondition::new(0, FilterOperator::LessThan, "28".to_string())];
    table.apply_filters(&conditions, FilterLogic::All);

    assert_eq!(table.visible_row_count(), 1);
    let visible: Vec<usize> = table.visible_indices();
    assert_eq!(visible, vec![1]);
}

#[test]
fn test_filter_greater_or_equal() {
    let mut table = CsvTable::new();
    table.data.push(vec!["30".to_string()]);
    table.data.push(vec!["25".to_string()]);
    table.data.push(vec!["30".to_string()]);
    table.col_types = vec![ColType::Number];

    let conditions =
        vec![FilterCondition::new(0, FilterOperator::GreaterOrEqual, "30".to_string())];
    table.apply_filters(&conditions, FilterLogic::All);

    assert_eq!(table.visible_row_count(), 2);
    let visible: Vec<usize> = table.visible_indices();
    assert_eq!(visible, vec![0, 2]);
}

#[test]
fn test_filter_less_or_equal() {
    let mut table = CsvTable::new();
    table.data.push(vec!["30".to_string()]);
    table.data.push(vec!["25".to_string()]);
    table.data.push(vec!["25".to_string()]);
    table.col_types = vec![ColType::Number];

    let conditions = vec![FilterCondition::new(0, FilterOperator::LessOrEqual, "25".to_string())];
    table.apply_filters(&conditions, FilterLogic::All);

    assert_eq!(table.visible_row_count(), 2);
    let visible: Vec<usize> = table.visible_indices();
    assert_eq!(visible, vec![1, 2]);
}

#[test]
fn test_filter_multiple_conditions_all() {
    let mut table = CsvTable::new();
    table.data.push(vec!["Alice".to_string(), "30".to_string()]);
    table.data.push(vec!["Bob".to_string(), "25".to_string()]);
    table.data.push(vec!["Alice".to_string(), "25".to_string()]);
    table.col_types = vec![ColType::Text, ColType::Number];

    let conditions = vec![
        FilterCondition::new(0, FilterOperator::Equals, "Alice".to_string()),
        FilterCondition::new(1, FilterOperator::GreaterThan, "26".to_string()),
    ];
    table.apply_filters(&conditions, FilterLogic::All);

    assert_eq!(table.visible_row_count(), 1);
    let visible: Vec<usize> = table.visible_indices();
    assert_eq!(visible, vec![0]);
}

#[test]
fn test_filter_multiple_conditions_any() {
    let mut table = CsvTable::new();
    table.data.push(vec!["Alice".to_string(), "30".to_string()]);
    table.data.push(vec!["Bob".to_string(), "25".to_string()]);
    table.data.push(vec!["Charlie".to_string(), "35".to_string()]);
    table.col_types = vec![ColType::Text, ColType::Number];

    let conditions = vec![
        FilterCondition::new(0, FilterOperator::Equals, "Alice".to_string()),
        FilterCondition::new(1, FilterOperator::GreaterThan, "32".to_string()),
    ];
    table.apply_filters(&conditions, FilterLogic::Any);

    assert_eq!(table.visible_row_count(), 2);
    let visible: Vec<usize> = table.visible_indices();
    assert_eq!(visible, vec![0, 2]);
}

#[test]
fn test_filter_empty_conditions() {
    let mut table = CsvTable::new();
    table.data.push(vec!["Alice".to_string()]);
    table.data.push(vec!["Bob".to_string()]);
    table.col_types = vec![ColType::Text];
    table.filtered_indices = Some(vec![0]);

    table.apply_filters(&vec![], FilterLogic::All);

    assert!(!table.is_filtered());
    assert_eq!(table.visible_row_count(), 2);
}

#[test]
fn test_filter_no_matches() {
    let mut table = CsvTable::new();
    table.data.push(vec!["Alice".to_string()]);
    table.data.push(vec!["Bob".to_string()]);
    table.col_types = vec![ColType::Text];

    let conditions = vec![FilterCondition::new(0, FilterOperator::Equals, "Charlie".to_string())];
    table.apply_filters(&conditions, FilterLogic::All);

    // No filter set when no rows match (treated as "show nothing" via empty filtered_indices)
    assert!(!table.is_filtered());
    assert_eq!(table.visible_row_count(), 2);
}

#[test]
fn test_filter_all_rows_match() {
    let mut table = CsvTable::new();
    table.data.push(vec!["Alice".to_string(), "30".to_string()]);
    table.data.push(vec!["Bob".to_string(), "25".to_string()]);
    table.col_types = vec![ColType::Text, ColType::Number];

    let conditions = vec![FilterCondition::new(1, FilterOperator::GreaterThan, "20".to_string())];
    table.apply_filters(&conditions, FilterLogic::All);

    // No filter set when all rows match
    assert!(!table.is_filtered());
    assert_eq!(table.visible_row_count(), 2);
}

#[test]
fn test_filter_invalid_column() {
    let mut table = CsvTable::new();
    table.data.push(vec!["Alice".to_string()]);
    table.data.push(vec!["Bob".to_string()]);
    table.col_types = vec![ColType::Text];

    let conditions = vec![FilterCondition::new(5, FilterOperator::Equals, "test".to_string())];
    table.apply_filters(&conditions, FilterLogic::All);

    // Invalid column means no rows match
    assert!(!table.is_filtered());
    assert_eq!(table.visible_row_count(), 2);
}

#[test]
fn test_filter_greater_than_scenario_indices() {
    // Column 1 holding {"30","50","45"}: GreaterThan "40" under All leaves
    // the absolute indices {1, 2} visible.
    let mut table = CsvTable::new();
    table.data.push(vec!["a".to_string(), "30".to_string()]);
    table.data.push(vec!["b".to_string(), "50".to_string()]);
    table.data.push(vec!["c".to_string(), "45".to_string()]);
    table.col_types = vec![ColType::Text, ColType::Number];

    let conditions = vec![FilterCondition::new(1, FilterOperator::GreaterThan, "40".to_string())];
    table.apply_filters(&conditions, FilterLogic::All);

    let visible: Vec<usize> = table.visible_indices();
    assert_eq!(visible, vec![1, 2]);
}

#[test]
fn test_filter_not_equals_unparsed_cell_counts() {
    // On a numeric column, a cell that fails to parse counts as not-equal.
    let mut table = CsvTable::new();
    table.data.push(vec!["30".to_string()]);
    table.data.push(vec!["n/a".to_string()]);
    table.col_types = vec![ColType::Number];

    let conditions = vec![FilterCondition::new(0, FilterOperator::NotEquals, "30".to_string())];
    table.apply_filters(&conditions, FilterLogic::All);

    let visible: Vec<usize> = table.visible_indices();
    assert_eq!(visible, vec![1]);
}

#[test]
fn test_operator_names_round_trip() {
    let ops = vec![
        FilterOperator::Equals,
        FilterOperator::NotEquals,
        FilterOperator::Contains,
        FilterOperator::NotContains,
        FilterOperator::StartsWith,
        FilterOperator::EndsWith,
        FilterOperator::GreaterThan,
        FilterOperator::LessThan,
        FilterOperator::GreaterOrEqual,
        FilterOperator::LessOrEqual,
    ];
    for op in ops {
        let name = operator_to_string(op.clone());
        assert_eq!(string_to_operator(name), op);
    }
    assert_eq!(string_to_operator("anything else"), FilterOperator::Equals);
}
