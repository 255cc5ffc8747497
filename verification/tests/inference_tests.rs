//! Tests of column type inference.

use csv_navigator::data::{ColType, CsvTable};

#[test]
fn test_infer_all_numeric_column() {
    let mut table = CsvTable::new();
    table.data.push(vec!["123".to_string(), "Alice".to_string()]);
    table.data.push(vec!["456".to_string(), "Bob".to_string()]);
    table.data.push(vec!["789".to_string(), "Charlie".to_string()]);
    table.col_types = vec![ColType::Text; 2];

    table.infer_column_types(None);

    assert_eq!(table.col_types[0], ColType::Number);
    assert_eq!(table.col_types[1], ColType::Text);
}

#[test]
fn test_infer_all_text_column() {
    let mut table = CsvTable::new();
    table.data.push(vec!["Alice".to_string(), "NYC".to_string()]);
    table.data.push(vec!["Bob".to_string(), "LA".to_string()]);
    table.data.push(vec!["Charlie".to_string(), "Chicago".to_string()]);
    table.col_types = vec![ColType::Text; 2];

    table.infer_column_types(None);

    assert_eq!(table.col_types[0], ColType::Text);
    assert_eq!(table.col_types[1], ColType::Text);
}

#[test]
fn test_infer_mixed_column_becomes_text() {
    let mut table = CsvTable::new();
    table.data.push(vec!["123".to_string()]);
    table.data.push(vec!["456".to_string()]);
    table.data.push(vec!["abc".to_string()]); // This makes it text
    table.col_types = vec![ColType::Text; 1];

    table.infer_column_types(None);

    assert_eq!(table.col_types[0], ColType::Text);
}

#[test]
fn test_infer_with_empty_values() {
    let mut table = CsvTable::new();
    table.data.push(vec!["123".to_string()]);
    table.data.push(vec!["".to_string()]); // Empty should be ignored
    table.data.push(vec!["456".to_string()]);
    table.data.push(vec!["  ".to_string()]); // Whitespace should be ignored
    table.data.push(vec!["789".to_string()]);
    table.col_types = vec![ColType::Text; 1];

    table.infer_column_types(None);

    // Should still be numeric since empty values are ignored
    assert_eq!(table.col_types[0], ColType::Number);
}

#[test]
fn test_infer_floating_point_numbers() {
    let mut table = CsvTable::new();
    table.data.push(vec!["123.45".to_string()]);
    table.data.push(vec!["678.90".to_string()]);
    table.data.push(vec!["-12.34".to_string()]);
    table.data.push(vec!["0.0".to_string()]);
    table.col_types = vec![ColType::Text; 1];

    table.infer_column_types(None);

    assert_eq!(table.col_types[0], ColType::Number);
}

#[test]
fn test_infer_scientific_notation() {
    let mut table = CsvTable::new();
    table.data.push(vec!["1.23e10".to_string()]);
    table.data.push(vec!["4.56E-5".to_string()]);
    table.data.push(vec!["7.89e+2".to_string()]);
    table.col_types = vec![ColType::Text; 1];

    table.infer_column_types(None);

    assert_eq!(table.col_types[0], ColType::Number);
}

#[test]
fn test_infer_all_empty_column() {
    let mut table = CsvTable::new();
    table.data.push(vec!["".to_string()]);
    table.data.push(vec!["  ".to_string()]);
    table.data.push(vec!["".to_string()]);
    table.col_types = vec![ColType::Text; 1];

    table.infer_column_types(None);

    // All empty should default to Number (optimistic inference)
    assert_eq!(table.col_types[0], ColType::Number);
}

#[test]
fn test_infer_sample_size_limit() {
    let mut table = CsvTable::new();

    // Add 15,000 numeric rows
    for i in 0..15_000 {
        table.data.push(vec![i.to_string()]);
    }

    table.col_types = vec![ColType::Text; 1];

    // Should only sample first 10,000 rows (default)
    table.infer_column_types(None);

    assert_eq!(table.col_types[0], ColType::Number);
}

#[test]
fn test_infer_custom_sample_size() {
    let mut table = CsvTable::new();

    // Add 100 numeric rows
    for i in 0..100 {
        table.data.push(vec![i.to_string()]);
    }
    // Add 1 text row
    table.data.push(vec!["text".to_string()]);

    table.col_types = vec![ColType::Text; 1];

    // Sample only first 50 rows - should be numeric
    table.infer_column_types(Some(50));
    assert_eq!(table.col_types[0], ColType::Number);

    // Re-test with full sample - should be text
    table.infer_column_types(Some(200));
    assert_eq!(table.col_types[0], ColType::Text);
}

#[test]
fn test_infer_multiple_columns() {
    let csv_data = "Name,Age,Salary,City,Active\nAlice,30,50000.50,NYC,true\nBob,25,45000.00,LA,false";
    let table = CsvTable::from_reader(csv_data.as_bytes(), true).unwrap();

    assert_eq!(table.col_types.len(), 5);
    assert_eq!(table.col_types[0], ColType::Text); // Name
    assert_eq!(table.col_types[1], ColType::Number); // Age
    assert_eq!(table.col_types[2], ColType::Number); // Salary
    assert_eq!(table.col_types[3], ColType::Text); // City
    assert_eq!(table.col_types[4], ColType::Text); // Active (true/false as text)
}

#[test]
fn test_infer_empty_table() {
    let mut table = CsvTable::new();
    table.col_types = vec![];

    table.infer_column_types(None);

    assert_eq!(table.col_types.len(), 0);
}

#[test]
fn test_infer_text_and_numbers_mixed_case() {
    // Column 0 per the scenario: {"123","456","abc"} is text; column 1:
    // {"123","","456"} is a number (the blank cell is ignored); column 2 is
    // entirely blank and stays a number.
    let mut table = CsvTable::new();
    table.data.push(vec!["123".to_string(), "123".to_string(), "".to_string()]);
    table.data.push(vec!["456".to_string(), "".to_string(), " ".to_string()]);
    table.data.push(vec!["abc".to_string(), "456".to_string(), "".to_string()]);
    table.col_types = vec![ColType::Text; 3];

    table.infer_column_types(None);

    assert_eq!(table.col_types[0], ColType::Text);
    assert_eq!(table.col_types[1], ColType::Number);
    assert_eq!(table.col_types[2], ColType::Number);
}
