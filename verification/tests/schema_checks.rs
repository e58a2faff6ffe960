use vorgrs::error::ErrorKind;
use vorgrs::schema::{
    expected_collection_tag_columns, expected_collections_columns, expected_index_names,
    expected_items_columns, expected_table_names, expected_tags_columns, expected_trigger_names,
    validate_db, SchemaColumn, SchemaInfo,
};

fn valid_info() -> SchemaInfo {
    SchemaInfo {
        table_names: expected_table_names(),
        collection_tag_columns: expected_collection_tag_columns(),
        collections_columns: expected_collections_columns(),
        items_columns: expected_items_columns(),
        tags_columns: expected_tags_columns(),
        index_names: expected_index_names(),
        trigger_names: expected_trigger_names(),
    }
}

#[test]
fn fresh_schema_validates() {
    assert!(validate_db(&valid_info()).is_ok());
}

#[test]
fn unexpected_table_is_reported() {
    let mut info = valid_info();
    info.table_names.push("table_unexpected".to_string());
    let error = validate_db(&info).unwrap_err();
    assert_eq!(error.kind, ErrorKind::DB);
    assert_eq!(
        error.message(),
        "Unexpected table \"table_unexpected\" exists in the database."
    );
}

#[test]
fn missing_table_is_reported() {
    let mut info = valid_info();
    info.table_names.retain(|name| name != "items");
    let error = validate_db(&info).unwrap_err();
    assert_eq!(error.kind, ErrorKind::DB);
    assert_eq!(error.message(), "Table \"items\" is missing from the database.");
}

#[test]
fn unexpected_column_is_reported() {
    let mut info = valid_info();
    info.items_columns.push(SchemaColumn {
        name: "studio_id".to_string(),
        ctype: "INTEGER".to_string(),
    });
    let error = validate_db(&info).unwrap_err();
    assert_eq!(error.kind, ErrorKind::DB);
    assert_eq!(error.message(), "Unexpected column \"studio_id\" in table \"items\".");
}

#[test]
fn missing_column_is_reported() {
    let mut info = valid_info();
    info.items_columns.retain(|column| column.name != "ext");
    let error = validate_db(&info).unwrap_err();
    assert_eq!(error.kind, ErrorKind::DB);
    assert_eq!(error.message(), "Column \"ext\" is missing from table \"items\".");
}

#[test]
fn wrong_column_type_is_reported() {
    let mut info = valid_info();
    for column in info.items_columns.iter_mut() {
        if column.name == "hash" {
            column.ctype = "TEXT".to_string();
        }
    }
    let error = validate_db(&info).unwrap_err();
    assert_eq!(error.kind, ErrorKind::DB);
    assert_eq!(
        error.message(),
        "Column \"hash\" in table \"items\" should have type \"VARCHAR(64)\"."
    );
}

#[test]
fn missing_index_is_reported() {
    let mut info = valid_info();
    info.index_names.retain(|name| name != "hash_index");
    let error = validate_db(&info).unwrap_err();
    assert_eq!(error.kind, ErrorKind::DB);
    assert_eq!(error.message(), "Database has unexpected or missing indices.");
}

#[test]
fn missing_trigger_is_reported() {
    let mut info = valid_info();
    info.trigger_names.retain(|name| name != "title_insert");
    let error = validate_db(&info).unwrap_err();
    assert_eq!(error.kind, ErrorKind::DB);
    assert_eq!(error.message(), "Database has unexpected or missing triggers.");
}
