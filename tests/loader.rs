use columnar_loader::encode::{
    parse_quoted, quote_ident, quote_text, storage_type, LogicalType, StorageType, Value,
};
use columnar_loader::load::{encode_value, Batch, Column, Field, Load, LoadError, LoadSummary};
use columnar_loader::plan::{insert_statement, plan_chunks, row_literal, transpose};

fn strings(v: &[&str]) -> Vec<String> {
    v.iter().map(|s| s.to_string()).collect()
}

fn field(name: &str, ty: LogicalType) -> Field {
    Field { name: name.to_string(), ty }
}

fn column(name: &str, ty: LogicalType, cells: Vec<Value>) -> Column {
    Column { name: name.to_string(), ty, cells }
}

fn people() -> Batch {
    Batch {
        columns: vec![
            column("id", LogicalType::Int64, vec![Value::Int(1), Value::Int(2), Value::Int(3)]),
            column(
                "name",
                LogicalType::Utf8,
                vec![
                    Value::Text("A".to_string()),
                    Value::Text("O'Brien".to_string()),
                    Value::Text("C".to_string()),
                ],
            ),
        ],
    }
}

fn people_schema() -> Vec<Field> {
    vec![field("id", LogicalType::Int64), field("name", LogicalType::Utf8)]
}

#[test]
fn quote_round_trip_keeps_embedded_quotes() {
    for text in ["O'Brien", "", "'", "''", "it's 'quoted'", "plain"] {
        let lit = quote_text(text);
        assert_eq!(parse_quoted(&lit, '\''), Some(text.to_string()));
    }
}

#[test]
fn quote_doubles_single_quotes() {
    assert_eq!(quote_text("O'Brien"), "'O''Brien'");
    assert_eq!(quote_text(""), "''");
    assert_eq!(quote_ident("my \"table\""), "\"my \"\"table\"\"\"");
}

#[test]
fn parse_rejects_lone_quote() {
    assert_eq!(parse_quoted("'a'b'", '\''), None);
    assert_eq!(parse_quoted("abc", '\''), None);
    assert_eq!(parse_quoted("'", '\''), None);
    assert_eq!(parse_quoted("'a''b'", '\''), Some("a'b".to_string()));
}

#[test]
fn values_encode_canonically() {
    assert_eq!(encode_value(&Value::Null), Some("NULL".to_string()));
    assert_eq!(encode_value(&Value::Boolean(true)), Some("TRUE".to_string()));
    assert_eq!(encode_value(&Value::Boolean(false)), Some("FALSE".to_string()));
    assert_eq!(encode_value(&Value::Int(-42)), Some("-42".to_string()));
    assert_eq!(encode_value(&Value::Int(i64::MIN)), Some("-9223372036854775808".to_string()));
    assert_eq!(encode_value(&Value::UInt(0)), Some("0".to_string()));
    assert_eq!(encode_value(&Value::UInt(u64::MAX)), Some("18446744073709551615".to_string()));
    assert_eq!(encode_value(&Value::Float("2.5".to_string())), Some("2.5".to_string()));
    assert_eq!(encode_value(&Value::Text("x'y".to_string())), Some("'x''y'".to_string()));
    assert_eq!(encode_value(&Value::Date(19000)), None);
    assert_eq!(encode_value(&Value::Binary(vec![1, 2])), None);
}

#[test]
fn storage_types_collapse_widths() {
    assert_eq!(storage_type(LogicalType::Boolean), Some(StorageType::Bool));
    assert_eq!(storage_type(LogicalType::Int8), Some(StorageType::Int));
    assert_eq!(storage_type(LogicalType::UInt64), Some(StorageType::Int));
    assert_eq!(storage_type(LogicalType::Float32), Some(StorageType::Float));
    assert_eq!(storage_type(LogicalType::Float64), Some(StorageType::Float));
    assert_eq!(storage_type(LogicalType::Utf8), Some(StorageType::Varchar));
    assert_eq!(storage_type(LogicalType::Date), None);
    assert_eq!(storage_type(LogicalType::List), None);
    assert_eq!(storage_type(LogicalType::Null), None);
    assert_eq!(StorageType::Varchar.name(), "VARCHAR");
}

#[test]
fn transpose_swaps_indices() {
    let cols = vec![strings(&["1", "2", "3"]), strings(&["a", "b", "c"])];
    let rows = transpose(&cols);
    assert_eq!(rows.len(), 3);
    for r in 0..3 {
        for c in 0..2 {
            assert_eq!(rows[r][c], cols[c][r]);
        }
    }
    assert_eq!(rows[1], strings(&["2", "b"]));
}

#[test]
fn chunks_cover_rows_in_order() {
    let rows = strings(&["r0", "r1", "r2", "r3", "r4"]);
    let chunks = plan_chunks(&rows, 2);
    assert_eq!(chunks.len(), 3);
    assert_eq!(chunks[2], strings(&["r4"]));
    let flat: Vec<String> = chunks.into_iter().flatten().collect();
    assert_eq!(flat, rows);
    assert_eq!(plan_chunks(&rows, 5).len(), 1);
    assert_eq!(plan_chunks(&rows, 7).len(), 1);
    assert_eq!(plan_chunks(&Vec::new(), 3).len(), 0);
}

#[test]
fn statements_are_well_formed() {
    assert_eq!(row_literal(&strings(&["1", "'A'"])), "(1, 'A')");
    assert_eq!(
        insert_statement("t", &strings(&["(1)", "(2)"])),
        "INSERT INTO \"t\" VALUES (1), (2)"
    );
}

#[test]
fn three_row_batch_loads() {
    let (mut load, create) = Load::start("people", people_schema(), 10_000).unwrap();
    assert_eq!(create, "CREATE TABLE IF NOT EXISTS \"people\" (\"id\" INT, \"name\" VARCHAR)");
    assert_eq!(load.drop_statement(), "DROP TABLE \"people\"");
    let stmts = load.plan_batch(&people()).unwrap();
    assert_eq!(
        stmts,
        vec!["INSERT INTO \"people\" VALUES (1, 'A'), (2, 'O''Brien'), (3, 'C')".to_string()]
    );
    assert_eq!(parse_quoted("'O''Brien'", '\''), Some("O'Brien".to_string()));
    load.record_statement(3);
    assert_eq!(load.finish(), Ok(LoadSummary { rows: 3, statements: 1 }));
}

#[test]
fn chunk_size_splits_statements() {
    let (mut load, _) = Load::start("people", people_schema(), 2).unwrap();
    let stmts = load.plan_batch(&people()).unwrap();
    assert_eq!(stmts.len(), 2);
    assert_eq!(stmts[1], "INSERT INTO \"people\" VALUES (3, 'C')");
    assert_eq!(load.observed, 3);
}

#[test]
fn unsupported_type_fails_before_create() {
    let schema = vec![field("id", LogicalType::Int32), field("day", LogicalType::Date)];
    assert_eq!(
        Load::start("t", schema, 100).err(),
        Some(LoadError::SchemaMapping { column: 1, ty: LogicalType::Date })
    );
}

#[test]
fn schema_drift_is_refused() {
    let (mut load, _) = Load::start("people", people_schema(), 100).unwrap();
    load.plan_batch(&people()).unwrap();
    let other = Batch {
        columns: vec![column("id", LogicalType::Int64, vec![Value::Int(4)])],
    };
    assert_eq!(load.plan_batch(&other), Err(LoadError::SchemaDrift));
    assert_eq!(load.observed, 3);
    let renamed = Batch {
        columns: vec![
            column("id", LogicalType::Int64, vec![Value::Int(4)]),
            column("nom", LogicalType::Utf8, vec![Value::Text("D".to_string())]),
        ],
    };
    assert_eq!(load.plan_batch(&renamed), Err(LoadError::SchemaDrift));
}

#[test]
fn ragged_batch_is_a_format_error() {
    let (mut load, _) = Load::start("people", people_schema(), 100).unwrap();
    let ragged = Batch {
        columns: vec![
            column("id", LogicalType::Int64, vec![Value::Int(1), Value::Int(2)]),
            column("name", LogicalType::Utf8, vec![Value::Text("A".to_string())]),
        ],
    };
    assert_eq!(load.plan_batch(&ragged), Err(LoadError::SourceFormat));
    assert_eq!(load.observed, 0);
}

#[test]
fn unencodable_cell_is_reported() {
    let (mut load, _) = Load::start("people", people_schema(), 100).unwrap();
    let bad = Batch {
        columns: vec![
            column("id", LogicalType::Int64, vec![Value::Int(1), Value::Date(3)]),
            column("name", LogicalType::Utf8, vec![Value::Null, Value::Null]),
        ],
    };
    assert_eq!(load.plan_batch(&bad), Err(LoadError::UnsupportedValue { column: 0, row: 1 }));
}

#[test]
fn shortfall_and_excess_are_errors() {
    let (mut load, _) = Load::start("people", people_schema(), 100).unwrap();
    load.plan_batch(&people()).unwrap();
    load.record_statement(2);
    assert_eq!(load.finish(), Err(LoadError::PartialInsert { shortfall: 1 }));
    assert_eq!(load.statement_failed(), LoadError::StatementExecution { statement: 1 });
    load.record_statement(2);
    assert_eq!(
        load.finish(),
        Err(LoadError::InvariantViolation { observed: 3, inserted: 4 })
    );
}

#[test]
fn row_count_sums_batches() {
    let (mut load, _) = Load::start("people", people_schema(), 2).unwrap();
    let mut total = 0;
    for _ in 0..3 {
        for stmt in load.plan_batch(&people()).unwrap() {
            let rows = stmt.matches("), (").count() as u64 + 1;
            total += rows;
            load.record_statement(rows);
        }
    }
    assert_eq!(total, 9);
    assert_eq!(load.finish(), Ok(LoadSummary { rows: 9, statements: 6 }));
}
