//! End-to-end workflows over the engine: sort, filter, edit, undo.

use csv_navigator::data::{ColType, CsvTable, FilterCondition, FilterLogic, FilterOperator, SortOrder};

#[test]
fn test_workflow_with_undo_redo() {
    let mut table = CsvTable::with_headers(vec!["Value".to_string()]);
    table.data.push(vec!["10".to_string()]);
    table.data.push(vec!["20".to_string()]);

    // Edit cell
    table.set_cell(0, 0, "15".to_string());
    assert_eq!(table.data[0][0], "15");

    // Undo
    table.undo().unwrap();
    assert_eq!(table.data[0][0], "10");

    // Redo
    table.redo().unwrap();
    assert_eq!(table.data[0][0], "15");

    // Make another edit
    table.set_cell(1, 0, "25".to_string());
    assert_eq!(table.data[1][0], "25");

    // Undo twice
    table.undo().unwrap();
    table.undo().unwrap();
    assert_eq!(table.data[0][0], "10");
    assert_eq!(table.data[1][0], "20");
}

#[test]
fn test_workflow_multiple_filters_and() {
    let mut table = CsvTable::with_headers(vec![
        "Name".to_string(),
        "Age".to_string(),
        "Department".to_string(),
    ]);
    table.data.push(vec!["Alice".to_string(), "30".to_string(), "Engineering".to_string()]);
    table.data.push(vec!["Bob".to_string(), "25".to_string(), "Engineering".to_string()]);
    table.data.push(vec!["Charlie".to_string(), "35".to_string(), "Sales".to_string()]);
    table.data.push(vec!["Diana".to_string(), "28".to_string(), "Engineering".to_string()]);

    // Filter: Age >= 28 AND Department = Engineering
    let filters = vec![
        FilterCondition::new(1, FilterOperator::GreaterOrEqual, "28".to_string()),
        FilterCondition::new(2, FilterOperator::Equals, "Engineering".to_string()),
    ];

    table.apply_filters(&filters, FilterLogic::All);

    // Should match Alice (30, Engineering) and Diana (28, Engineering)
    assert_eq!(table.visible_row_count(), 2);

    let visible_names: Vec<String> = table
        .visible_indices()
        .into_iter()
        .map(|idx| table.data[idx][0].clone())
        .collect();
    assert!(visible_names.contains(&"Alice".to_string()));
    assert!(visible_names.contains(&"Diana".to_string()));
}

#[test]
fn test_workflow_multiple_filters_or() {
    let mut table = CsvTable::with_headers(vec![
        "Product".to_string(),
        "Price".to_string(),
        "Category".to_string(),
    ]);
    table.data.push(vec!["Widget".to_string(), "10".to_string(), "Tools".to_string()]);
    table.data.push(vec!["Gadget".to_string(), "150".to_string(), "Electronics".to_string()]);
    table.data.push(vec!["Doohickey".to_string(), "5".to_string(), "Tools".to_string()]);
    table.data.push(vec!["Gizmo".to_string(), "200".to_string(), "Electronics".to_string()]);

    // Filter: Price > 100 OR Category = Tools
    let filters = vec![
        FilterCondition::new(1, FilterOperator::GreaterThan, "100".to_string()),
        FilterCondition::new(2, FilterOperator::Equals, "Tools".to_string()),
    ];

    table.apply_filters(&filters, FilterLogic::Any);

    // Should match: Widget (Tools), Gadget (150), Doohickey (Tools), Gizmo (200)
    assert_eq!(table.visible_row_count(), 4);
}

#[test]
fn test_workflow_multi_cell_edit() {
    let mut table = CsvTable::with_headers(vec!["A".to_string(), "B".to_string()]);
    table.data.push(vec!["1".to_string(), "2".to_string()]);
    table.data.push(vec!["3".to_string(), "4".to_string()]);
    table.data.push(vec!["5".to_string(), "6".to_string()]);

    // Multi-cell edit
    let changes = vec![
        (0, 0, "10".to_string()),
        (1, 1, "40".to_string()),
        (2, 0, "50".to_string()),
    ];

    let count = table.set_cells(changes);
    assert_eq!(count, 3);

    // Verify changes
    assert_eq!(table.data[0][0], "10");
    assert_eq!(table.data[1][1], "40");
    assert_eq!(table.data[2][0], "50");

    // Undo should revert all changes at once
    table.undo().unwrap();
    assert_eq!(table.data[0][0], "1");
    assert_eq!(table.data[1][1], "4");
    assert_eq!(table.data[2][0], "5");
}

#[test]
fn test_workflow_sort_after_filter() {
    let mut table = CsvTable::with_headers(vec!["Name".to_string(), "Age".to_string()]);
    table.data.push(vec!["Alice".to_string(), "30".to_string()]);
    table.data.push(vec!["Bob".to_string(), "25".to_string()]);
    table.data.push(vec!["Charlie".to_string(), "35".to_string()]);
    table.data.push(vec!["Diana".to_string(), "28".to_string()]);

    // Filter: Age > 27
    let filter = FilterCondition::new(1, FilterOperator::GreaterThan, "27".to_string());
    table.apply_filters(&vec![filter], FilterLogic::All);
    assert_eq!(table.visible_row_count(), 3); // Alice, Charlie, Diana

    // Sort by Age - should clear filter
    table.sort_by_column(1, SortOrder::Ascending).unwrap();

    // After sort, filter should be cleared
    assert!(!table.is_filtered());
    assert_eq!(table.visible_row_count(), 4);

    // Verify sorted order
    assert_eq!(table.data[0][0], "Bob"); // 25
    assert_eq!(table.data[1][0], "Diana"); // 28
    assert_eq!(table.data[2][0], "Alice"); // 30
    assert_eq!(table.data[3][0], "Charlie"); // 35
}

#[test]
fn test_workflow_moderate_dataset() {
    let mut table = CsvTable::with_headers(vec![
        "ID".to_string(),
        "Value".to_string(),
        "Category".to_string(),
    ]);

    // Add 5000 rows
    for i in 0..5000 {
        table.data.push(vec![
            i.to_string(),
            (i % 100).to_string(),
            if i % 2 == 0 { "Even".to_string() } else { "Odd".to_string() },
        ]);
    }

    // Sort
    table.sort_by_column(1, SortOrder::Ascending).unwrap();

    // Filter
    let filter = FilterCondition::new(2, FilterOperator::Equals, "Even".to_string());
    table.apply_filters(&vec![filter], FilterLogic::All);
    assert_eq!(table.visible_row_count(), 2500);

    // Edit a cell
    table.set_cell(0, 1, "999".to_string());

    // Undo
    table.undo().unwrap();

    // All operations should complete quickly
    assert_eq!(table.row_count(), 5000);
}

#[test]
fn test_workflow_save_sort_reload() {
    // Build, encode, reload, sort and edit a table purely through byte
    // buffers, checking the data stays intact end to end.
    let mut table = CsvTable::with_headers(vec![
        "Name".to_string(),
        "Age".to_string(),
        "Score".to_string(),
    ]);
    table.data.push(vec!["Charlie".to_string(), "35".to_string(), "85".to_string()]);
    table.data.push(vec!["Alice".to_string(), "30".to_string(), "95".to_string()]);
    table.data.push(vec!["Bob".to_string(), "25".to_string(), "75".to_string()]);

    let bytes = table.to_csv_bytes().unwrap();
    let mut loaded = CsvTable::from_reader(&bytes, true).unwrap();
    assert_eq!(loaded.row_count(), 3);

    loaded.sort_by_column(1, SortOrder::Ascending).unwrap();
    assert_eq!(loaded.data[0][0], "Bob");
    assert_eq!(loaded.data[1][0], "Alice");
    assert_eq!(loaded.data[2][0], "Charlie");

    let filter = FilterCondition::new(2, FilterOperator::GreaterOrEqual, "80".to_string());
    loaded.apply_filters(&vec![filter], FilterLogic::All);
    assert_eq!(loaded.visible_row_count(), 2);

    loaded.clear_filter();
    loaded.set_cell(2, 2, "88".to_string());

    let bytes2 = loaded.to_csv_bytes().unwrap();
    let final_table = CsvTable::from_reader(&bytes2, true).unwrap();
    assert_eq!(final_table.row_count(), 3);
    assert_eq!(final_table.data[2][2], "88");
}

#[test]
fn test_workflow_reload_infers_types() {
    // A table encoded and reloaded gets its column types inferred again.
    let mut table = CsvTable::with_headers(vec![
        "Name".to_string(),
        "Count".to_string(),
        "Value".to_string(),
    ]);
    table.data.push(vec!["Item1".to_string(), "100".to_string(), "12.5".to_string()]);
    table.data.push(vec!["Item2".to_string(), "200".to_string(), "25.3".to_string()]);
    table.data.push(vec!["Item3".to_string(), "150".to_string(), "18.7".to_string()]);

    let bytes = table.to_csv_bytes().unwrap();
    let mut loaded = CsvTable::from_reader(&bytes, true).unwrap();

    assert_eq!(loaded.col_types.len(), 3);
    assert_eq!(loaded.col_types[0], ColType::Text);
    assert_eq!(loaded.col_types[1], ColType::Number);
    assert_eq!(loaded.col_types[2], ColType::Number);

    loaded.sort_by_column(1, SortOrder::Ascending).unwrap();
    assert_eq!(loaded.data[0][1], "100");
    assert_eq!(loaded.data[1][1], "150");
    assert_eq!(loaded.data[2][1], "200");
}
