//! Tests of the table store: construction, counts, accessors, mutators and
//! the visible-row projection.

use csv_navigator::data::{ColType, CsvTable};

#[test]
fn test_csv_table_new() {
    let table = CsvTable::new();
    assert!(table.headers.is_none());
    assert_eq!(table.data.len(), 0);
    assert!(table.filtered_indices.is_none());
    assert_eq!(table.col_types.len(), 0);
}

#[test]
fn test_csv_table_with_headers() {
    let headers = vec!["Name".to_string(), "Age".to_string(), "City".to_string()];
    let table = CsvTable::with_headers(headers.clone());

    assert_eq!(table.headers, Some(headers));
    assert_eq!(table.column_count(), 3);
    assert_eq!(table.col_types.len(), 3);
    assert!(table.col_types.iter().all(|t| *t == ColType::Text));
}

#[test]
fn test_column_count() {
    let mut table = CsvTable::new();
    assert_eq!(table.column_count(), 0);

    table.headers = Some(vec!["A".to_string(), "B".to_string()]);
    assert_eq!(table.column_count(), 2);

    let mut table2 = CsvTable::new();
    table2.data.push(vec!["1".to_string(), "2".to_string(), "3".to_string()]);
    assert_eq!(table2.column_count(), 3);
}

#[test]
fn test_row_count_and_visible_count() {
    let mut table = CsvTable::new();
    table.data = vec![
        vec!["1".to_string(), "2".to_string()],
        vec!["3".to_string(), "4".to_string()],
        vec!["5".to_string(), "6".to_string()],
    ];

    assert_eq!(table.row_count(), 3);
    assert_eq!(table.visible_row_count(), 3);
    assert!(!table.is_filtered());

    table.filtered_indices = Some(vec![0, 2]);
    assert_eq!(table.row_count(), 3);
    assert_eq!(table.visible_row_count(), 2);
    assert!(table.is_filtered());
}

#[test]
fn test_get_row() {
    let mut table = CsvTable::new();
    table.data = vec![
        vec!["a".to_string(), "b".to_string()],
        vec!["c".to_string(), "d".to_string()],
    ];

    assert_eq!(table.get_row(0), Some(&vec!["a".to_string(), "b".to_string()]));
    assert_eq!(table.get_row(1), Some(&vec!["c".to_string(), "d".to_string()]));
    assert_eq!(table.get_row(2), None);
}

#[test]
fn test_get_visible_row() {
    let mut table = CsvTable::new();
    table.data = vec![
        vec!["a".to_string(), "b".to_string()],
        vec!["c".to_string(), "d".to_string()],
        vec!["e".to_string(), "f".to_string()],
    ];

    // Without filter
    assert_eq!(table.get_visible_row(1), Some(&vec!["c".to_string(), "d".to_string()]));

    // With filter (showing rows 0 and 2)
    table.filtered_indices = Some(vec![0, 2]);
    assert_eq!(table.get_visible_row(0), Some(&vec!["a".to_string(), "b".to_string()]));
    assert_eq!(table.get_visible_row(1), Some(&vec!["e".to_string(), "f".to_string()]));
    assert_eq!(table.get_visible_row(2), None);
}

#[test]
fn test_get_and_set_cell() {
    let mut table = CsvTable::new();
    table.data = vec![
        vec!["a".to_string(), "b".to_string()],
        vec!["c".to_string(), "d".to_string()],
    ];

    assert_eq!(table.get_cell(0, 0), Some("a"));
    assert_eq!(table.get_cell(1, 1), Some("d"));
    assert_eq!(table.get_cell(2, 0), None);
    assert_eq!(table.get_cell(0, 3), None);

    assert!(table.set_cell(0, 0, "x".to_string()));
    assert_eq!(table.get_cell(0, 0), Some("x"));

    assert!(!table.set_cell(5, 5, "invalid".to_string()));
}

#[test]
fn test_clear_filter() {
    let mut table = CsvTable::new();
    table.data = vec![vec!["1".to_string()], vec!["2".to_string()]];
    table.filtered_indices = Some(vec![0]);

    assert!(table.is_filtered());
    table.clear_filter();
    assert!(!table.is_filtered());
    assert_eq!(table.visible_row_count(), 2);
}

#[test]
fn test_visible_indices() {
    let mut table = CsvTable::new();
    table.data = vec![vec!["1".to_string()], vec!["2".to_string()], vec!["3".to_string()]];

    // Without filter
    let indices: Vec<usize> = table.visible_indices();
    assert_eq!(indices, vec![0, 1, 2]);

    // With filter
    table.filtered_indices = Some(vec![0, 2]);
    let indices: Vec<usize> = table.visible_indices();
    assert_eq!(indices, vec![0, 2]);
}

#[test]
fn test_col_type_default() {
    let col_type = ColType::default();
    assert_eq!(col_type, ColType::Text);
}
