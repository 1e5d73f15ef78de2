use columnar_loader::encode::{LogicalType, Value};
use columnar_loader::load::{Batch, Column, Field, Load, LoadError, LoadSummary};

fn people() -> Batch {
    Batch {
        columns: vec![
            Column {
                name: "id".to_string(),
                ty: LogicalType::Int64,
                cells: vec![Value::Int(1), Value::Int(2), Value::Int(3)],
            },
            Column {
                name: "name".to_string(),
                ty: LogicalType::Utf8,
                cells: vec![
                    Value::Text("A".to_string()),
                    Value::Text("O'Brien".to_string()),
                    Value::Text("C".to_string()),
                ],
            },
        ],
    }
}

fn schema() -> Vec<Field> {
    vec![
        Field { name: "id".to_string(), ty: LogicalType::Int64 },
        Field { name: "name".to_string(), ty: LogicalType::Utf8 },
    ]
}

#[test]
fn fresh_table_stores_quoted_name() {
    let conn = rusqlite::Connection::open_in_memory().unwrap();
    let (mut load, create) = Load::start("people", schema(), 2).unwrap();
    conn.execute(&create, []).unwrap();
    for stmt in load.plan_batch(&people()).unwrap() {
        let affected = conn.execute(&stmt, []).unwrap();
        load.record_statement(affected as u64);
    }
    assert_eq!(load.finish(), Ok(LoadSummary { rows: 3, statements: 2 }));
    let name: String = conn
        .query_row("SELECT name FROM people WHERE id = 2", [], |r| r.get(0))
        .unwrap();
    assert_eq!(name, "O'Brien");
    let count: i64 = conn.query_row("SELECT COUNT(*) FROM people", [], |r| r.get(0)).unwrap();
    assert_eq!(count, 3);
}

#[test]
fn drifting_batch_writes_nothing() {
    let conn = rusqlite::Connection::open_in_memory().unwrap();
    let (mut load, create) = Load::start("people", schema(), 100).unwrap();
    conn.execute(&create, []).unwrap();
    let other = Batch {
        columns: vec![Column {
            name: "id".to_string(),
            ty: LogicalType::Int64,
            cells: vec![Value::Int(9)],
        }],
    };
    assert_eq!(load.plan_batch(&other), Err(LoadError::SchemaDrift));
    let count: i64 = conn.query_row("SELECT COUNT(*) FROM people", [], |r| r.get(0)).unwrap();
    assert_eq!(count, 0);
}

#[test]
fn dropped_table_can_be_recreated() {
    let conn = rusqlite::Connection::open_in_memory().unwrap();
    let (load, create) = Load::start("we\"ird", schema(), 10).unwrap();
    conn.execute(&create, []).unwrap();
    conn.execute(&load.drop_statement(), []).unwrap();
    conn.execute(&create, []).unwrap();
    assert!(conn.execute(&load.drop_statement(), []).is_ok());
    assert!(conn.execute(&load.drop_statement(), []).is_err());
}
